//! Verified helpers over strings, specified against `Seq<char>` views.

use vstd::prelude::*;
use vstd::string::*;

verus! {

/// Character-wise equality of two string slices.
pub fn str_eq(a: &str, b: &str) -> (r: bool)
    ensures
        r == (a@ == b@),
{
    let alen = a.unicode_len();
    let blen = b.unicode_len();
    if alen != blen {
        return false;
    }
    let mut i: usize = 0;
    while i < alen
        invariant
            alen == a@.len(),
            blen == b@.len(),
            alen == blen,
            0 <= i <= alen,
            forall|j: int| 0 <= j < i ==> a@[j] == b@[j],
        decreases alen - i,
    {
        if a.get_char(i) != b.get_char(i) {
            return false;
        }
        i = i + 1;
    }
    proof {
        assert(a@ =~= b@);
    }
    true
}

/// True when `p` is a character-wise prefix of `s`.
pub fn str_starts_with(s: &str, p: &str) -> (r: bool)
    ensures
        r == p@.is_prefix_of(s@),
{
    let slen = s.unicode_len();
    let plen = p.unicode_len();
    if plen > slen {
        return false;
    }
    let mut i: usize = 0;
    while i < plen
        invariant
            slen == s@.len(),
            plen == p@.len(),
            plen <= slen,
            0 <= i <= plen,
            forall|j: int| 0 <= j < i ==> s@[j] == p@[j],
        decreases plen - i,
    {
        if s.get_char(i) != p.get_char(i) {
            return false;
        }
        i = i + 1;
    }
    proof {
        assert(s@.subrange(0, p@.len() as int) =~= p@);
    }
    true
}

/// ASCII lower-casing of one character; other characters are unchanged.
pub open spec fn lower_char(c: char) -> char {
    if 'A' <= c && c <= 'Z' {
        ((c as u32) + 32) as char
    } else {
        c
    }
}

/// ASCII lower-casing of a character sequence.
pub open spec fn lower_seq(s: Seq<char>) -> Seq<char> {
    s.map_values(|c: char| lower_char(c))
}

/// Executable ASCII lower-casing of one character.
pub fn to_lower_char(c: char) -> (r: char)
    ensures
        r == lower_char(c),
{
    if 'A' <= c && c <= 'Z' {
        ((c as u8) + 32) as char
    } else {
        c
    }
}

/// ASCII-case-insensitive equality of two string slices.
pub fn str_eq_ignore_ascii_case(a: &str, b: &str) -> (r: bool)
    ensures
        r == (lower_seq(a@) == lower_seq(b@)),
{
    let alen = a.unicode_len();
    let blen = b.unicode_len();
    if alen != blen {
        proof {
            assert(lower_seq(a@).len() != lower_seq(b@).len());
        }
        return false;
    }
    let mut i: usize = 0;
    while i < alen
        invariant
            alen == a@.len(),
            blen == b@.len(),
            alen == blen,
            0 <= i <= alen,
            forall|j: int| 0 <= j < i ==> lower_char(a@[j]) == lower_char(b@[j]),
        decreases alen - i,
    {
        if to_lower_char(a.get_char(i)) != to_lower_char(b.get_char(i)) {
            proof {
                assert(lower_seq(a@)[i as int] != lower_seq(b@)[i as int]);
            }
            return false;
        }
        i = i + 1;
    }
    proof {
        assert(lower_seq(a@) =~= lower_seq(b@));
    }
    true
}

/// The pattern `pat` occurs in `s` starting at position `i`.
pub open spec fn occurs_at(s: Seq<char>, pat: Seq<char>, i: int) -> bool {
    0 <= i && i + pat.len() <= s.len() && s.subrange(i, i + pat.len() as int) == pat
}

/// Some occurrence of `pat` lies within `s`.
pub open spec fn contains_seq(s: Seq<char>, pat: Seq<char>) -> bool {
    exists|i: int| occurs_at(s, pat, i)
}

/// Whether `pat` occurs in `s` at character position `i`.
pub fn match_at(s: &str, pat: &str, i: usize) -> (r: bool)
    requires
        i <= s@.len(),
    ensures
        r == occurs_at(s@, pat@, i as int),
{
    let slen = s.unicode_len();
    let plen = pat.unicode_len();
    if plen > slen - i {
        return false;
    }
    let mut j: usize = 0;
    while j < plen
        invariant
            slen == s@.len(),
            plen == pat@.len(),
            i + plen <= slen,
            0 <= j <= plen,
            forall|k: int| 0 <= k < j ==> s@[i + k] == pat@[k],
        decreases plen - j,
    {
        if s.get_char(i + j) != pat.get_char(j) {
            proof {
                assert(occurs_at(s@, pat@, i as int) ==> s@.subrange(
                    i as int,
                    i + pat@.len() as int,
                )[j as int] == pat@[j as int]);
            }
            return false;
        }
        j = j + 1;
    }
    proof {
        assert(s@.subrange(i as int, i + pat@.len() as int) =~= pat@);
    }
    true
}

/// Whether `pat` occurs anywhere within `s`.
pub fn contains_sub(s: &str, pat: &str) -> (r: bool)
    ensures
        r == contains_seq(s@, pat@),
{
    let slen = s.unicode_len();
    let mut i: usize = 0;
    while i < slen
        invariant
            slen == s@.len(),
            0 <= i <= slen,
            forall|k: int| 0 <= k < i ==> !occurs_at(s@, pat@, k),
        decreases slen - i,
    {
        if match_at(s, pat, i) {
            return true;
        }
        i = i + 1;
    }
    if match_at(s, pat, slen) {
        return true;
    }
    proof {
        assert(forall|k: int| occurs_at(s@, pat@, k) ==> 0 <= k <= s@.len());
    }
    false
}

/// The character views of a list of strings.
pub open spec fn str_views(v: Seq<String>) -> Seq<Seq<char>> {
    v.map_values(|s: String| s@)
}

/// A Unicode whitespace character (the `White_Space` set).
pub open spec fn is_space_char(c: char) -> bool {
    c == ' ' || c == '\t' || c == '\n' || c == '\r' || c == '\u{0B}' || c == '\u{0C}' || c
        == '\u{85}' || c == '\u{A0}' || c == '\u{1680}' || ('\u{2000}' <= c && c <= '\u{200A}') || c
        == '\u{2028}' || c == '\u{2029}' || c == '\u{202F}' || c == '\u{205F}' || c == '\u{3000}'
}

/// Executable test for [`is_space_char`].
pub fn space_char(c: char) -> (r: bool)
    ensures
        r == is_space_char(c),
{
    c == ' ' || c == '\t' || c == '\n' || c == '\r' || c == '\u{0B}' || c == '\u{0C}' || c
        == '\u{85}' || c == '\u{A0}' || c == '\u{1680}' || ('\u{2000}' <= c && c <= '\u{200A}') || c
        == '\u{2028}' || c == '\u{2029}' || c == '\u{202F}' || c == '\u{205F}' || c == '\u{3000}'
}

/// Length of the whitespace run of `s` that starts at position `i`.
pub open spec fn space_run(s: Seq<char>, i: int) -> nat
    decreases s.len() - i,
{
    if i < 0 || i >= s.len() || !is_space_char(s[i]) {
        0
    } else {
        1 + space_run(s, i + 1)
    }
}

/// Length of the whitespace run of `s` that ends just before position `j`.
pub open spec fn space_run_back(s: Seq<char>, j: int) -> nat
    decreases j,
{
    if j <= 0 || j > s.len() || !is_space_char(s[j - 1]) {
        0
    } else {
        1 + space_run_back(s, j - 1)
    }
}

/// `s` with leading and trailing whitespace removed.
pub open spec fn trim_spec(s: Seq<char>) -> Seq<char> {
    if space_run(s, 0) == s.len() {
        Seq::empty()
    } else {
        s.subrange(space_run(s, 0) as int, s.len() - space_run_back(s, s.len() as int))
    }
}

/// The leading whitespace run ends exactly at the first non-space
/// position (or the end of `s`).
proof fn lemma_space_run_exact(s: Seq<char>, a: int, j: int)
    requires
        0 <= a <= j <= s.len(),
        forall|k: int| a <= k < j ==> is_space_char(s[k]),
        j == s.len() || !is_space_char(s[j]),
    ensures
        space_run(s, a) == j - a,
    decreases j - a,
{
    if a < j {
        lemma_space_run_exact(s, a + 1, j);
    }
}

/// The trailing whitespace run starts exactly at the last non-space
/// position (or the start of `s`).
proof fn lemma_space_run_back_exact(s: Seq<char>, b: int, j: int)
    requires
        0 <= b <= j <= s.len(),
        forall|k: int| b <= k < j ==> is_space_char(s[k]),
        b == 0 || !is_space_char(s[b - 1]),
    ensures
        space_run_back(s, j) == j - b,
    decreases j - b,
{
    if b < j {
        lemma_space_run_back_exact(s, b, j - 1);
    }
}

/// `s` with surrounding whitespace removed.
pub fn trim(s: &str) -> (r: &str)
    ensures
        r@ == trim_spec(s@),
{
    let slen = s.unicode_len();
    let mut a: usize = 0;
    loop
        invariant
            slen == s@.len(),
            0 <= a <= slen,
            forall|k: int| 0 <= k < a ==> is_space_char(s@[k]),
        ensures
            0 <= a <= slen,
            forall|k: int| 0 <= k < a ==> is_space_char(s@[k]),
            a == slen || !is_space_char(s@[a as int]),
        decreases slen - a,
    {
        if a == slen {
            break;
        }
        if !space_char(s.get_char(a)) {
            break;
        }
        a = a + 1;
    }
    if a == slen {
        proof {
            lemma_space_run_exact(s@, 0, slen as int);
            assert(s@.subrange(slen as int, slen as int) =~= Seq::<char>::empty());
        }
        return s.substring_char(slen, slen);
    }
    proof {
        lemma_space_run_exact(s@, 0, a as int);
    }
    let mut b: usize = slen;
    loop
        invariant
            slen == s@.len(),
            a < b <= slen,
            !is_space_char(s@[a as int]),
            forall|k: int| b <= k < slen ==> is_space_char(s@[k]),
        ensures
            a < b <= slen,
            forall|k: int| b <= k < slen ==> is_space_char(s@[k]),
            !is_space_char(s@[b - 1]),
        decreases b,
    {
        if !space_char(s.get_char(b - 1)) {
            break;
        }
        b = b - 1;
    }
    proof {
        lemma_space_run_back_exact(s@, b as int, slen as int);
    }
    s.substring_char(a, b)
}

/// Left-to-right replacement of every non-overlapping occurrence of
/// `pat` in `s` by `rep`; an empty pattern leaves `s` unchanged.
pub open spec fn replace_all_spec(s: Seq<char>, pat: Seq<char>, rep: Seq<char>) -> Seq<char>
    decreases s.len(),
{
    if pat.len() == 0 || s.len() == 0 {
        s
    } else if occurs_at(s, pat, 0) {
        rep + replace_all_spec(s.skip(pat.len() as int), pat, rep)
    } else {
        seq![s[0]] + replace_all_spec(s.skip(1), pat, rep)
    }
}

/// An occurrence of `pat` within the tail `s.skip(i)` is the same thing
/// as an occurrence within `s` shifted by `i`.
proof fn lemma_occurs_skip(s: Seq<char>, pat: Seq<char>, i: int, k: int)
    requires
        0 <= i <= s.len(),
        0 <= k,
    ensures
        occurs_at(s.skip(i), pat, k) == occurs_at(s, pat, i + k),
{
    if k + pat.len() <= s.skip(i).len() {
        assert(s.skip(i).subrange(k, k + pat.len() as int) =~= s.subrange(
            i + k,
            i + k + pat.len() as int,
        ));
    }
}

/// Text without any occurrence of the pattern is left unchanged by
/// replacement.
pub proof fn lemma_replace_none(s: Seq<char>, pat: Seq<char>, rep: Seq<char>)
    requires
        pat.len() > 0,
        forall|i: int| !occurs_at(s, pat, i),
    ensures
        replace_all_spec(s, pat, rep) == s,
    decreases s.len(),
{
    if s.len() > 0 {
        assert(!occurs_at(s, pat, 0));
        assert forall|i: int| !occurs_at(s.skip(1), pat, i) by {
            if 0 <= i {
                lemma_occurs_skip(s, pat, 1, i);
            }
        }
        lemma_replace_none(s.skip(1), pat, rep);
        assert(seq![s[0]] + s.skip(1) =~= s);
    }
}

/// Law: a template of the shape `a ++ pat ++ b` in which the pattern
/// occurs exactly once — at the seam — is rendered as `a ++ v ++ b`:
/// the single placeholder is replaced by the value exactly once and
/// the surrounding text is kept.
pub proof fn lemma_replace_single_occurrence(
    a: Seq<char>,
    b: Seq<char>,
    v: Seq<char>,
    pat: Seq<char>,
)
    requires
        pat.len() > 0,
        forall|i: int| #[trigger] occurs_at(a + pat + b, pat, i) <==> i == a.len(),
    ensures
        replace_all_spec(a + pat + b, pat, v) == a + v + b,
    decreases a.len(),
{
    let t = a + pat + b;
    if a.len() == 0 {
        assert(occurs_at(t, pat, 0));
        assert(t.skip(pat.len() as int) =~= b);
        assert forall|i: int| !occurs_at(b, pat, i) by {
            if 0 <= i {
                lemma_occurs_skip(t, pat, pat.len() as int, i);
                assert(occurs_at(b, pat, i) ==> occurs_at(t, pat, pat.len() + i));
            }
        }
        lemma_replace_none(b, pat, v);
        assert(v + b =~= a + v + b);
    } else {
        assert(!occurs_at(t, pat, 0));
        assert(t.len() > 0);
        assert(t[0] == a[0]);
        let t1 = a.skip(1) + pat + b;
        assert(t.skip(1) =~= t1);
        assert forall|i: int| #[trigger] occurs_at(t1, pat, i) <==> i == a.skip(1).len() by {
            if 0 <= i {
                lemma_occurs_skip(t, pat, 1, i);
            }
        }
        lemma_replace_single_occurrence(a.skip(1), b, v, pat);
        assert(seq![a[0]] + (a.skip(1) + v + b) =~= a + v + b);
    }
}

/// Replaces every non-overlapping occurrence of `pat` in `s` by `rep`,
/// scanning from the left.
pub fn replace_all(s: &str, pat: &str, rep: &str) -> (r: String)
    ensures
        r@ == replace_all_spec(s@, pat@, rep@),
{
    let slen = s.unicode_len();
    let plen = pat.unicode_len();
    let mut out = String::new();
    if plen == 0 {
        out.append(s);
        return out;
    }
    proof {
        assert(s@.skip(0) =~= s@);
        assert(s@.subrange(0, 0) =~= Seq::<char>::empty());
        assert(out@ + s@.subrange(0, 0) + replace_all_spec(s@.skip(0), pat@, rep@)
            =~= replace_all_spec(s@, pat@, rep@));
    }
    let mut start: usize = 0;
    let mut i: usize = 0;
    while i < slen
        invariant
            slen == s@.len(),
            plen == pat@.len(),
            plen > 0,
            0 <= start <= i <= slen,
            replace_all_spec(s@, pat@, rep@) == out@ + s@.subrange(start as int, i as int)
                + replace_all_spec(s@.skip(i as int), pat@, rep@),
        decreases slen - i,
    {
        if match_at(s, pat, i) {
            proof {
                assert(occurs_at(s@.skip(i as int), pat@, 0)) by {
                    lemma_occurs_skip(s@, pat@, i as int, 0);
                }
                assert(s@.skip(i as int).skip(pat@.len() as int) =~= s@.skip(
                    i + pat@.len() as int,
                ));
            }
            out.append(s.substring_char(start, i));
            out.append(rep);
            i = i + plen;
            start = i;
        } else {
            proof {
                assert(!occurs_at(s@.skip(i as int), pat@, 0)) by {
                    lemma_occurs_skip(s@, pat@, i as int, 0);
                }
                assert(s@.skip(i as int).skip(1) =~= s@.skip(i + 1));
                assert(s@.skip(i as int)[0] == s@[i as int]);
                assert(s@.subrange(start as int, i + 1) =~= s@.subrange(start as int, i as int)
                    + seq![s@[i as int]]);
            }
            i = i + 1;
        }
    }
    out.append(s.substring_char(start, slen));
    proof {
        assert(s@.skip(slen as int) =~= Seq::<char>::empty());
        assert(replace_all_spec(Seq::<char>::empty(), pat@, rep@) =~= Seq::<char>::empty());
        assert(out@ =~= replace_all_spec(s@, pat@, rep@));
    }
    out
}

} // verus!
