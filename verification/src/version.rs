//! Release version comparison: a version string is read as the numbers
//! between its dots (parts that are not numbers are skipped) and compared
//! part by part.

use vstd::prelude::*;
use crate::numbers::{parse_u64, parse_u64_spec};
use crate::text::chars_of;

verus! {

/// `str::split(sep)` on a character sequence: the pieces between the
/// separators, always at least one (an empty input gives one empty piece).
pub open spec fn split_on(s: Seq<char>, sep: char) -> Seq<Seq<char>>
    decreases s.len(),
{
    if s.len() == 0 {
        seq![Seq::<char>::empty()]
    } else {
        let prev = split_on(s.drop_last(), sep);
        if s.last() == sep {
            prev.push(Seq::<char>::empty())
        } else {
            prev.update(prev.len() - 1, prev.last().push(s.last()))
        }
    }
}

pub proof fn lemma_split_on_nonempty(s: Seq<char>, sep: char)
    ensures
        split_on(s, sep).len() >= 1,
    decreases s.len(),
{
    if s.len() > 0 {
        lemma_split_on_nonempty(s.drop_last(), sep);
    }
}

/// The pieces that parse as `u64`, in order, as
/// `filter_map(|p| p.parse().ok())` keeps them.
pub open spec fn parsed_parts(parts: Seq<Seq<char>>) -> Seq<u64>
    decreases parts.len(),
{
    if parts.len() == 0 {
        Seq::empty()
    } else {
        let prev = parsed_parts(parts.drop_last());
        match parse_u64_spec(parts.last()) {
            Some(x) => prev.push(x),
            None => prev,
        }
    }
}

/// The numeric components of a version string.
pub open spec fn version_numbers(s: Seq<char>) -> Seq<u64> {
    parsed_parts(split_on(s, '.'))
}

/// `r` is strictly greater than `l` in the order that compares component by
/// component and, when one is a prefix of the other, prefers the longer.
pub open spec fn numbers_newer(r: Seq<u64>, l: Seq<u64>) -> bool
    decreases r.len(),
{
    if r.len() == 0 || l.len() == 0 {
        r.len() > l.len()
    } else if r[0] > l[0] {
        true
    } else if r[0] < l[0] {
        false
    } else {
        numbers_newer(r.drop_first(), l.drop_first())
    }
}

/// The version `remote` is strictly newer than the version `local`.
pub open spec fn version_newer(remote: Seq<char>, local: Seq<char>) -> bool {
    numbers_newer(version_numbers(remote), version_numbers(local))
}

/// The numeric components of `s`, as `version_numbers` defines them.
pub fn version_parts(s: &str) -> (r: Vec<u64>)
    ensures
        r@ == version_numbers(s@),
{
    let v = chars_of(s);
    let n = v.len();
    let mut out: Vec<u64> = Vec::new();
    let mut cur: Vec<char> = Vec::new();
    let mut i: usize = 0;
    proof {
        assert(v@.take(0) =~= Seq::<char>::empty());
    }
    while i < n
        invariant
            i <= n == v.len(),
            split_on(v@.take(i as int), '.').len() >= 1,
            cur@ == split_on(v@.take(i as int), '.').last(),
            out@ == parsed_parts(split_on(v@.take(i as int), '.').drop_last()),
        decreases n - i,
    {
        let c = v[i];
        let ghost t = v@.take(i + 1);
        proof {
            assert(t.drop_last() =~= v@.take(i as int));
            assert(t.last() == c);
            lemma_split_on_nonempty(t, '.');
        }
        if c == '.' {
            let p = parse_u64(&cur);
            match p {
                Some(x) => out.push(x),
                None => {},
            }
            cur = Vec::new();
            proof {
                let prev = split_on(v@.take(i as int), '.');
                assert(split_on(t, '.') == prev.push(Seq::<char>::empty()));
                assert(split_on(t, '.').drop_last() =~= prev);
                assert(prev =~= prev.drop_last().push(prev.last()));
                assert(cur@ =~= Seq::<char>::empty());
            }
        } else {
            cur.push(c);
            proof {
                let prev = split_on(v@.take(i as int), '.');
                let next = split_on(t, '.');
                assert(next.drop_last() =~= prev.drop_last());
            }
        }
        i += 1;
    }
    let p = parse_u64(&cur);
    match p {
        Some(x) => out.push(x),
        None => {},
    }
    proof {
        assert(v@.take(n as int) =~= v@);
        let parts = split_on(v@, '.');
        assert(parts =~= parts.drop_last().push(parts.last()));
    }
    out
}

proof fn lemma_newer_skip(r: Seq<u64>, l: Seq<u64>, i: int)
    requires
        0 <= i < r.len(),
        i < l.len(),
        r[i] == l[i],
    ensures
        numbers_newer(r.skip(i), l.skip(i)) == numbers_newer(r.skip(i + 1), l.skip(i + 1)),
{
    assert(r.skip(i).drop_first() =~= r.skip(i + 1));
    assert(l.skip(i).drop_first() =~= l.skip(i + 1));
}

/// Compares two component sequences with `numbers_newer`.
pub fn numbers_are_newer(r: &Vec<u64>, l: &Vec<u64>) -> (b: bool)
    ensures
        b == numbers_newer(r@, l@),
{
    let mut i: usize = 0;
    proof {
        assert(r@.skip(0) =~= r@);
        assert(l@.skip(0) =~= l@);
    }
    while i < r.len() && i < l.len()
        invariant
            i <= r.len(),
            i <= l.len(),
            numbers_newer(r@, l@) == numbers_newer(r@.skip(i as int), l@.skip(i as int)),
        decreases r.len() - i,
    {
        if r[i] > l[i] {
            return true;
        }
        if r[i] < l[i] {
            return false;
        }
        proof {
            lemma_newer_skip(r@, l@, i as int);
        }
        i += 1;
    }
    r.len() > l.len()
}

/// Returns `true` if `remote` is strictly newer than `local`.
pub fn is_newer(remote: &str, local: &str) -> (b: bool)
    ensures
        b == version_newer(remote@, local@),
{
    let r = version_parts(remote);
    let l = version_parts(local);
    numbers_are_newer(&r, &l)
}

// ── Laws of the version order ────────────────────────────────────────────────

proof fn lemma_numbers_irreflexive(a: Seq<u64>)
    ensures
        !numbers_newer(a, a),
    decreases a.len(),
{
    if a.len() > 0 {
        lemma_numbers_irreflexive(a.drop_first());
    }
}

proof fn lemma_numbers_asymmetric(a: Seq<u64>, b: Seq<u64>)
    ensures
        numbers_newer(a, b) ==> !numbers_newer(b, a),
    decreases a.len(),
{
    if a.len() > 0 && b.len() > 0 {
        lemma_numbers_asymmetric(a.drop_first(), b.drop_first());
    }
}

proof fn lemma_numbers_transitive(a: Seq<u64>, b: Seq<u64>, c: Seq<u64>)
    ensures
        numbers_newer(a, b) && numbers_newer(b, c) ==> numbers_newer(a, c),
    decreases a.len(),
{
    if a.len() > 0 && b.len() > 0 && c.len() > 0 {
        lemma_numbers_transitive(a.drop_first(), b.drop_first(), c.drop_first());
    }
}

proof fn lemma_numbers_total(a: Seq<u64>, b: Seq<u64>)
    ensures
        numbers_newer(a, b) || numbers_newer(b, a) || a == b,
    decreases a.len(),
{
    if a.len() > 0 && b.len() > 0 {
        lemma_numbers_total(a.drop_first(), b.drop_first());
        if a.drop_first() == b.drop_first() && a[0] == b[0] {
            assert forall|i: int| 0 <= i < a.len() implies a[i] == b[i] by {
                if i > 0 {
                    assert(a[i] == a.drop_first()[i - 1]);
                    assert(b[i] == b.drop_first()[i - 1]);
                }
            }
            assert(a =~= b);
        }
    } else if a.len() == 0 && b.len() == 0 {
        assert(a =~= b);
    }
}

/// No version is newer than itself.
pub proof fn law_newer_irreflexive(v: Seq<char>)
    ensures
        !version_newer(v, v),
{
    lemma_numbers_irreflexive(version_numbers(v));
}

/// If `a` is newer than `b`, then `b` is not newer than `a`.
pub proof fn law_newer_asymmetric(a: Seq<char>, b: Seq<char>)
    ensures
        version_newer(a, b) ==> !version_newer(b, a),
{
    lemma_numbers_asymmetric(version_numbers(a), version_numbers(b));
}

/// "Newer than" is transitive.
pub proof fn law_newer_transitive(a: Seq<char>, b: Seq<char>, c: Seq<char>)
    ensures
        version_newer(a, b) && version_newer(b, c) ==> version_newer(a, c),
{
    lemma_numbers_transitive(version_numbers(a), version_numbers(b), version_numbers(c));
}

/// Two versions whose numeric components differ are ordered one way or the
/// other; neither is newer exactly when their components are equal.
pub proof fn law_newer_total(a: Seq<char>, b: Seq<char>)
    ensures
        version_newer(a, b) || version_newer(b, a) || version_numbers(a) == version_numbers(b),
        version_numbers(a) == version_numbers(b) ==> !version_newer(a, b),
{
    lemma_numbers_total(version_numbers(a), version_numbers(b));
    lemma_numbers_irreflexive(version_numbers(a));
}

} // verus!
