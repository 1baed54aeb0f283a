//! Wildcard matching as the persistent tier does it: `%` stands for any run of
//! characters and `_` for any single character.
//!
//! Escaping is not modelled: a backslash in a pattern is matched as itself,
//! where a store such as PostgreSQL takes it to escape the character that
//! follows.  For patterns that hold a backslash the two can therefore differ,
//! and such a pattern does not count as plain.

use vstd::prelude::*;
use crate::utils::text::{chars_of, is_substring, occurs_at};

verus! {

/// A character with a special meaning in a pattern.
pub open spec fn is_wildcard(c: char) -> bool {
    c == '%' || c == '_'
}

/// The character by which a store escapes the one that follows.
pub open spec fn is_escape(c: char) -> bool {
    c == '\\'
}

/// The text holds neither a wildcard character nor the escape character.
pub open spec fn is_plain(p: Seq<char>) -> bool {
    forall|i: int| 0 <= i < p.len() ==> !is_wildcard(#[trigger] p[i]) && !is_escape(p[i])
}

/// `text` as a whole matches `pat`.
pub open spec fn like(text: Seq<char>, pat: Seq<char>) -> bool
    decreases pat.len(), text.len(),
{
    if pat.len() == 0 {
        text.len() == 0
    } else if pat[0] == '%' {
        like(text, pat.drop_first()) || (text.len() > 0 && like(text.drop_first(), pat))
    } else if text.len() == 0 {
        false
    } else if pat[0] == '_' || pat[0] == text[0] {
        like(text.drop_first(), pat.drop_first())
    } else {
        false
    }
}

/// The pattern with a `%` put on both sides.
pub open spec fn wrapped(p: Seq<char>) -> Seq<char> {
    seq!['%'] + p + seq!['%']
}

/// `key` matches the wildcard search for `pattern` anywhere in it.
pub open spec fn like_contains(key: Seq<char>, pattern: Seq<char>) -> bool {
    like(key, wrapped(pattern))
}

proof fn lemma_like_unfold(text: Seq<char>, pat: Seq<char>, a: int, i: int)
    requires
        0 <= a <= text.len(),
        0 <= i < pat.len(),
    ensures
        like(text.skip(a), pat.skip(i)) == (if pat[i] == '%' {
            like(text.skip(a), pat.skip(i + 1)) || (a < text.len() && like(
                text.skip(a + 1),
                pat.skip(i),
            ))
        } else if a == text.len() {
            false
        } else if pat[i] == '_' || pat[i] == text[a] {
            like(text.skip(a + 1), pat.skip(i + 1))
        } else {
            false
        }),
{
    assert(pat.skip(i).drop_first() =~= pat.skip(i + 1));
    if a < text.len() {
        assert(text.skip(a).drop_first() =~= text.skip(a + 1));
    }
}

/// Whether all of `text` matches `pat`.
pub fn like_match(text: &Vec<char>, pat: &Vec<char>) -> (r: bool)
    ensures
        r == like(text@, pat@),
{
    let n: usize = text.len();
    let m: usize = pat.len();
    let mut row: Vec<bool> = Vec::new();
    let mut j: usize = 0;
    while j < n
        invariant
            j <= n,
            n == text.len(),
            m == pat.len(),
            row.len() == j,
            forall|a: int| 0 <= a < j ==> row@[a] == like(text@.skip(a), pat@.skip(m as int)),
        decreases n - j,
    {
        row.push(false);
        j += 1;
    }
    row.push(true);
    let mut i: usize = m;
    while i > 0
        invariant
            i <= m,
            n == text.len(),
            m == pat.len(),
            row.len() == n + 1,
            forall|a: int| 0 <= a <= n ==> row@[a] == like(text@.skip(a), pat@.skip(i as int)),
        decreases i,
    {
        i -= 1;
        let p: char = pat[i];
        let ghost prev = row@;
        if p == '%' {
            proof {
                lemma_like_unfold(text@, pat@, n as int, i as int);
            }
            let mut j: usize = n;
            while j > 0
                invariant
                    j <= n,
                    i < m,
                    n == text.len(),
                    m == pat.len(),
                    p == pat@[i as int],
                    p == '%',
                    row.len() == n + 1,
                    prev.len() == n + 1,
                    forall|a: int|
                        0 <= a <= n ==> prev[a] == like(text@.skip(a), pat@.skip(i + 1)),
                    forall|a: int|
                        j <= a <= n ==> row@[a] == like(text@.skip(a), pat@.skip(i as int)),
                    forall|a: int| 0 <= a < j ==> row@[a] == prev[a],
                decreases j,
            {
                j -= 1;
                proof {
                    lemma_like_unfold(text@, pat@, j as int, i as int);
                }
                assert(row@[j as int] == prev[j as int]);
                assert(row@[j + 1] == like(text@.skip(j + 1), pat@.skip(i as int)));
                let v: bool = row[j] || row[j + 1];
                let ghost before = row@;
                row[j] = v;
                assert(row@ == before.update(j as int, v));
                assert(v == like(text@.skip(j as int), pat@.skip(i as int)));
            }
        } else {
            let mut j: usize = 0;
            while j < n
                invariant
                    j <= n,
                    i < m,
                    n == text.len(),
                    m == pat.len(),
                    p == pat@[i as int],
                    p != '%',
                    row.len() == n + 1,
                    prev.len() == n + 1,
                    forall|a: int|
                        0 <= a <= n ==> prev[a] == like(text@.skip(a), pat@.skip(i + 1)),
                    forall|a: int|
                        0 <= a < j ==> row@[a] == like(text@.skip(a), pat@.skip(i as int)),
                    forall|a: int| j <= a <= n ==> row@[a] == prev[a],
                decreases n - j,
            {
                proof {
                    lemma_like_unfold(text@, pat@, j as int, i as int);
                }
                assert(row@[j + 1] == prev[j + 1]);
                let v: bool = (p == '_' || p == text[j]) && row[j + 1];
                let ghost before = row@;
                row[j] = v;
                assert(row@ == before.update(j as int, v));
                assert(v == like(text@.skip(j as int), pat@.skip(i as int)));
                j += 1;
            }
            proof {
                lemma_like_unfold(text@, pat@, n as int, i as int);
            }
            row[n] = false;
        }
    }
    assert(text@.skip(0) =~= text@);
    assert(pat@.skip(0) =~= pat@);
    row[0]
}

/// Whether `key` matches the wildcard search for `pattern` anywhere in it.
pub fn like_contains_chars(key: &Vec<char>, pattern: &Vec<char>) -> (r: bool)
    ensures
        r == like_contains(key@, pattern@),
{
    let mut pat: Vec<char> = Vec::new();
    pat.push('%');
    let mut i: usize = 0;
    while i < pattern.len()
        invariant
            i <= pattern.len(),
            pat@ == seq!['%'] + pattern@.take(i as int),
        decreases pattern.len() - i,
    {
        pat.push(pattern[i]);
        assert(pattern@.take(i + 1) =~= pattern@.take(i as int).push(pattern@[i as int]));
        assert(pat@ =~= seq!['%'] + pattern@.take(i + 1));
        i += 1;
    }
    assert(pattern@.take(i as int) =~= pattern@);
    pat.push('%');
    assert(pat@ =~= wrapped(pattern@));
    like_match(key, &pat)
}

/// Whether `key` matches the wildcard search for `pattern` anywhere in it.
pub fn matches_wrapped(key: &str, pattern: &str) -> (r: bool)
    ensures
        r == like_contains(key@, pattern@),
{
    let hay = chars_of(key);
    let needle = chars_of(pattern);
    like_contains_chars(&hay, &needle)
}

proof fn lemma_percent_matches_all(t: Seq<char>)
    ensures
        like(t, seq!['%']),
    decreases t.len(),
{
    let pat = seq!['%'];
    assert(pat.drop_first() =~= Seq::<char>::empty());
    if t.len() > 0 {
        lemma_percent_matches_all(t.drop_first());
    } else {
        assert(like(t, Seq::<char>::empty()));
    }
}

proof fn lemma_plain_prefix(t: Seq<char>, p: Seq<char>)
    requires
        is_plain(p),
    ensures
        like(t, p + seq!['%']) == (p.len() <= t.len() && t.take(p.len() as int) == p),
    decreases p.len(),
{
    let pat = p + seq!['%'];
    if p.len() == 0 {
        assert(pat =~= seq!['%']);
        lemma_percent_matches_all(t);
        assert(t.take(0) =~= p);
    } else {
        assert(pat[0] == p[0]);
        assert(!is_wildcard(p[0]));
        assert(pat.drop_first() =~= p.drop_first() + seq!['%']);
        assert(is_plain(p.drop_first())) by {
            assert forall|i: int| 0 <= i < p.drop_first().len() implies !is_wildcard(
                #[trigger] p.drop_first()[i],
            ) && !is_escape(p.drop_first()[i]) by {
                assert(p.drop_first()[i] == p[i + 1]);
            }
        }
        if t.len() > 0 {
            lemma_plain_prefix(t.drop_first(), p.drop_first());
            let rest = p.len() - 1;
            if t[0] == p[0] && rest <= t.len() - 1 && t.drop_first().take(rest) == p.drop_first() {
                assert(t.take(p.len() as int) =~= p) by {
                    assert forall|i: int| 0 <= i < p.len() implies t.take(p.len() as int)[i]
                        == p[i] by {
                        if i > 0 {
                            assert(t.drop_first().take(rest)[i - 1] == p.drop_first()[i - 1]);
                        }
                    }
                }
            }
            if p.len() <= t.len() && t.take(p.len() as int) == p {
                assert(t[0] == t.take(p.len() as int)[0]);
                assert(t.drop_first().take(rest) =~= p.drop_first()) by {
                    assert forall|i: int| 0 <= i < rest implies t.drop_first().take(rest)[i]
                        == p.drop_first()[i] by {
                        assert(t.take(p.len() as int)[i + 1] == p[i + 1]);
                    }
                }
            }
        }
    }
}

/// Some suffix of `t` matches `q`.
spec fn some_suffix_matches(t: Seq<char>, q: Seq<char>) -> bool {
    exists|k: int| 0 <= k <= t.len() && like(#[trigger] t.skip(k), q)
}

proof fn lemma_leading_percent(t: Seq<char>, q: Seq<char>)
    ensures
        like(t, seq!['%'] + q) == some_suffix_matches(t, q),
    decreases t.len(),
{
    let pat = seq!['%'] + q;
    assert(pat[0] == '%');
    assert(pat.drop_first() =~= q);
    assert(t.skip(0) =~= t);
    if t.len() > 0 {
        let rest = t.drop_first();
        lemma_leading_percent(rest, q);
        if like(rest, pat) {
            let k = choose|k: int| 0 <= k <= rest.len() && like(#[trigger] rest.skip(k), q);
            assert(t.skip(k + 1) =~= rest.skip(k));
            assert(some_suffix_matches(t, q));
        }
        if some_suffix_matches(t, q) {
            let k = choose|k: int| 0 <= k <= t.len() && like(#[trigger] t.skip(k), q);
            if k > 0 {
                assert(rest.skip(k - 1) =~= t.skip(k));
                assert(some_suffix_matches(rest, q));
            }
        }
    } else {
        if some_suffix_matches(t, q) {
            let k = choose|k: int| 0 <= k <= t.len() && like(#[trigger] t.skip(k), q);
            assert(k == 0);
        }
    }
}

/// For a plain pattern the wildcard search is the plain substring test.
pub proof fn lemma_plain_like_is_substring(key: Seq<char>, pattern: Seq<char>)
    requires
        is_plain(pattern),
    ensures
        like_contains(key, pattern) == is_substring(key, pattern),
{
    let q = pattern + seq!['%'];
    assert(wrapped(pattern) =~= seq!['%'] + q);
    lemma_leading_percent(key, q);
    let n = pattern.len() as int;
    if some_suffix_matches(key, q) {
        let k = choose|k: int| 0 <= k <= key.len() && like(#[trigger] key.skip(k), q);
        lemma_plain_prefix(key.skip(k), pattern);
        assert(key.subrange(k, k + n) =~= key.skip(k).take(n));
        assert(occurs_at(key, pattern, k));
    }
    if is_substring(key, pattern) {
        let at = choose|at: int| occurs_at(key, pattern, at);
        lemma_plain_prefix(key.skip(at), pattern);
        assert(key.subrange(at, at + n) =~= key.skip(at).take(n));
        assert(like(key.skip(at), q));
        assert(some_suffix_matches(key, q));
    }
}

} // verus!
