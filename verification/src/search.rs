//! Searching the clipboard history and the emoji list.

use vstd::prelude::*;
use fuzzy_matcher::FuzzyMatcher;
use crate::history::ClipboardItem;
use crate::settings::{lowercase, to_lowercase};
use crate::text::chars_of;

verus! {

/// The score that the skim fuzzy matcher (default configuration) gives
/// `choice` for `pattern`, or `None` when it does not match.
pub uninterp spec fn skim_score(choice: Seq<char>, pattern: Seq<char>) -> Option<i64>;

/// `c` is an ASCII upper-case letter.
pub open spec fn is_ascii_upper(c: char) -> bool {
    'A' <= c && c <= 'Z'
}

/// `a` and `b` are the same character when ASCII case is ignored
/// (`char::eq_ignore_ascii_case`).
pub open spec fn eq_ignoring_ascii_case(a: char, b: char) -> bool {
    ||| a == b
    ||| is_ascii_upper(a) && (b as int) == (a as int) + 32
    ||| is_ascii_upper(b) && (a as int) == (b as int) + 32
}

/// Some character of `p` is an ASCII upper-case letter.
pub open spec fn has_ascii_upper(p: Seq<char>) -> bool {
    exists|i: int| 0 <= i < p.len() && is_ascii_upper(#[trigger] p[i])
}

/// The characters of `n` occur in `h` in order when ASCII case is ignored.
pub open spec fn in_order_ignoring_case(n: Seq<char>, h: Seq<char>) -> bool
    decreases h.len(),
{
    if n.len() == 0 {
        true
    } else if h.len() == 0 {
        false
    } else if eq_ignoring_ascii_case(h[0], n[0]) {
        in_order_ignoring_case(n.drop_first(), h.drop_first())
    } else {
        in_order_ignoring_case(n, h.drop_first())
    }
}

/// Whether the skim matcher in its default (smart-case) configuration
/// matches `pattern` in `choice`: the pattern's characters occur in the
/// choice in order, compared exactly when the pattern holds an ASCII
/// upper-case letter and ignoring ASCII case otherwise.
pub open spec fn skim_matches(choice: Seq<char>, pattern: Seq<char>) -> bool {
    if has_ascii_upper(pattern) {
        is_subsequence(pattern, choice)
    } else {
        in_order_ignoring_case(pattern, choice)
    }
}

/// A character put in front of `h` keeps the characters of `n` in order
/// (ignoring ASCII case).
proof fn lemma_ignoring_case_prepend(n: Seq<char>, h: Seq<char>, c: char)
    requires
        in_order_ignoring_case(n, h),
    ensures
        in_order_ignoring_case(n, seq![c] + h),
    decreases h.len(), 1int,
{
    let ch = seq![c] + h;
    assert(ch.drop_first() =~= h);
    if n.len() > 0 && eq_ignoring_ascii_case(c, n[0]) {
        lemma_ignoring_case_drop(n, h);
    }
}

/// Dropping the first character of `n` keeps the rest in order in `h`
/// (ignoring ASCII case).
proof fn lemma_ignoring_case_drop(n: Seq<char>, h: Seq<char>)
    requires
        n.len() > 0,
        in_order_ignoring_case(n, h),
    ensures
        in_order_ignoring_case(n.drop_first(), h),
    decreases h.len(), 0int,
{
    if eq_ignoring_ascii_case(h[0], n[0]) {
        lemma_ignoring_case_prepend(n.drop_first(), h.drop_first(), h[0]);
        assert(seq![h[0]] + h.drop_first() =~= h);
    } else {
        lemma_ignoring_case_drop(n, h.drop_first());
        lemma_ignoring_case_prepend(n.drop_first(), h.drop_first(), h[0]);
        assert(seq![h[0]] + h.drop_first() =~= h);
    }
}

/// Characters that occur in order exactly also occur in order when ASCII
/// case is ignored: whatever the case of the query, text that holds it
/// exactly is a match of the skim matcher.
pub proof fn law_exact_occurrence_matches(choice: Seq<char>, pattern: Seq<char>)
    requires
        is_subsequence(pattern, choice),
    ensures
        in_order_ignoring_case(pattern, choice),
        skim_matches(choice, pattern),
    decreases choice.len(),
{
    if pattern.len() > 0 {
        if pattern[0] == choice[0] {
            law_exact_occurrence_matches(choice.drop_first(), pattern.drop_first());
        } else {
            law_exact_occurrence_matches(choice.drop_first(), pattern);
            lemma_ignoring_case_prepend(pattern, choice.drop_first(), choice[0]);
            assert(seq![choice[0]] + choice.drop_first() =~= choice);
        }
    }
}

/// A query without ASCII upper-case letters matches every text that holds
/// its characters in order, whatever their case there.
pub proof fn law_lower_case_query_ignores_case(choice: Seq<char>, pattern: Seq<char>)
    requires
        !has_ascii_upper(pattern),
        in_order_ignoring_case(pattern, choice),
    ensures
        skim_matches(choice, pattern),
{
}

/// `SkimMatcherV2::default().fuzzy_match(choice, pattern)`: the score that
/// the name `skim_score` stands for; an empty pattern matches with score 0.
/// Whether there is a score at all is stated: the default configuration is
/// smart-case, and the matcher gives a score exactly when its first pass
/// finds the pattern's characters in order (`cheap_matches`), so
/// `skim_matches` says when it matches.  The score itself is not stated.
#[verifier::external_body]
fn fuzzy_score(choice: &str, pattern: &str) -> (r: Option<i64>)
    ensures
        r == skim_score(choice@, pattern@),
        pattern@.len() == 0 ==> r == Some(0i64),
        r is Some <==> skim_matches(choice@, pattern@),
{
    fuzzy_matcher::skim::SkimMatcherV2::default().fuzzy_match(choice, pattern)
}

/// The entry at index `i` matches `query`.
pub open spec fn is_hit(all: Seq<ClipboardItem>, query: Seq<char>, i: int) -> bool {
    skim_score(all[i].content@, query) is Some
}

/// The score of the entry at index `i`.
pub open spec fn hit_score(all: Seq<ClipboardItem>, query: Seq<char>, i: int) -> i64 {
    skim_score(all[i].content@, query)->0
}

/// Entry `i` is shown before entry `j`: a higher score first, and among
/// equal scores the earlier entry first.
pub open spec fn ranks_before(all: Seq<ClipboardItem>, query: Seq<char>, i: int, j: int) -> bool {
    hit_score(all, query, i) > hit_score(all, query, j) || (hit_score(all, query, i) == hit_score(
        all,
        query,
        j,
    ) && i < j)
}

/// `idx` lists exactly the matching entries of `all`, best match first.
pub open spec fn is_ranking(all: Seq<ClipboardItem>, query: Seq<char>, idx: Seq<int>) -> bool {
    &&& forall|k: int|
        0 <= k < idx.len() ==> 0 <= #[trigger] idx[k] < all.len() && is_hit(all, query, idx[k])
    &&& forall|i: int| 0 <= i < all.len() && is_hit(all, query, i) ==> #[trigger] idx.contains(i)
    &&& forall|a: int, b: int| 0 <= a < b < idx.len() ==> ranks_before(all, query, idx[a], idx[b])
}

/// `shown` is what the history list shows for `query`: everything, in
/// order, for an empty query; otherwise the matching entries ordered by
/// score, best first, keeping the history order among equal scores.
pub open spec fn is_search_result(all: Seq<ClipboardItem>, query: Seq<char>, shown: Seq<ClipboardItem>) -> bool {
    if query.len() == 0 {
        shown == all
    } else {
        exists|idx: Seq<int>|
            is_ranking(all, query, idx) && shown == idx.map_values(|i: int| all[i])
    }
}

fn scores_at_least(s: Option<i64>, min: i64) -> (b: bool)
    ensures
        b == (s is Some && s->0 >= min),
{
    match s {
        Some(x) => x >= min,
        None => false,
    }
}

/// The history entries to show for `query`.
pub fn search_history(all: &Vec<ClipboardItem>, query: &str) -> (shown: Vec<ClipboardItem>)
    ensures
        is_search_result(all@, query@, shown@),
        query@.len() > 0 ==> forall|i: int|
            0 <= i < all@.len() ==> (is_hit(all@, query@, i) <==> skim_matches(#[trigger] all@[i].content@, query@)),
        forall|i: int|
            0 <= i < all@.len() && !has_ascii_upper(query@) && in_order_ignoring_case(
                query@,
                #[trigger] all@[i].content@,
            ) ==> shown@.contains(all@[i]),
{
    if query.unicode_len() == 0 {
        let shown = all.clone();
        assert forall|i: int| 0 <= i < all@.len() implies shown@.contains(#[trigger] all@[i]) by {
            assert(shown@[i] == all@[i]);
        }
        return shown;
    }
    let ghost a = all@;
    let ghost q = query@;
    let n = all.len();
    let mut scores: Vec<Option<i64>> = Vec::new();
    let mut i: usize = 0;
    while i < n
        invariant
            n == a.len(),
            a == all@,
            q == query@,
            i <= n,
            scores@.len() == i,
            forall|k: int| 0 <= k < i ==> #[trigger] scores@[k] == skim_score(a[k].content@, q),
            forall|k: int| 0 <= k < i ==> (skim_score(a[k].content@, q) is Some <==> skim_matches(#[trigger] a[k].content@, q)),
        decreases n - i,
    {
        scores.push(fuzzy_score(all[i].content.as_str(), query));
        i += 1;
    }
    // insertion of each matching index into `order`, best first
    let mut order: Vec<usize> = Vec::new();
    let mut i: usize = 0;
    while i < n
        invariant
            n == a.len(),
            a == all@,
            q == query@,
            i <= n,
            scores@.len() == n,
            forall|k: int| 0 <= k < n ==> #[trigger] scores@[k] == skim_score(a[k].content@, q),
            forall|k: int| 0 <= k < n ==> (skim_score(a[k].content@, q) is Some <==> skim_matches(#[trigger] a[k].content@, q)),
            forall|k: int| 0 <= k < order@.len() ==> #[trigger] order@[k] < i && is_hit(a, q, order@[k] as int),
            forall|c: int| 0 <= c < i && is_hit(a, q, c) ==> order@.contains(c as usize),
            forall|x: int, y: int| 0 <= x < y < order@.len() ==> ranks_before(a, q, order@[x] as int, order@[y] as int),
        decreases n - i,
    {
        match scores[i] {
            Some(si) => {
                let mut p: usize = 0;
                while p < order.len() && scores_at_least(scores[order[p]], si)
                    invariant
                        p <= order@.len(),
                        n == a.len(),
                        i < n,
                        scores@.len() == n,
                        scores@[i as int] == Some(si),
                        forall|k: int| 0 <= k < n ==> #[trigger] scores@[k] == skim_score(a[k].content@, q),
                        forall|k: int| 0 <= k < n ==> (skim_score(a[k].content@, q) is Some <==> skim_matches(#[trigger] a[k].content@, q)),
                        forall|k: int| 0 <= k < order@.len() ==> #[trigger] order@[k] < i && is_hit(a, q, order@[k] as int),
                        forall|k: int| 0 <= k < p ==> ranks_before(a, q, #[trigger] order@[k] as int, i as int),
                    decreases order@.len() - p,
                {
                    assert(scores@[order@[p as int] as int] == skim_score(a[order@[p as int] as int].content@, q));
                    p += 1;
                }
                let ghost old_order = order@;
                proof {
                    if p < old_order.len() {
                        let j = old_order[p as int] as int;
                        assert(scores@[j] == skim_score(a[j].content@, q));
                        assert(ranks_before(a, q, i as int, j));
                    }
                }
                order.insert(p, i);
                proof {
                    let o = order@;
                    assert(o == old_order.insert(p as int, i));
                    assert forall|x: int, y: int| 0 <= x < y < o.len() implies ranks_before(a, q, o[x] as int, o[y] as int) by {
                        if y < p {
                            assert(o[x] == old_order[x] && o[y] == old_order[y]);
                        } else if y == p {
                            assert(o[x] == old_order[x]);
                        } else if x < p {
                            assert(o[x] == old_order[x] && o[y] == old_order[y - 1]);
                        } else if x == p {
                            assert(o[y] == old_order[y - 1]);
                            if y - 1 > p {
                                assert(ranks_before(a, q, old_order[p as int] as int, old_order[y - 1] as int));
                            }
                        } else {
                            assert(o[x] == old_order[x - 1] && o[y] == old_order[y - 1]);
                        }
                    }
                    assert forall|k: int| 0 <= k < o.len() implies #[trigger] o[k] < i + 1 && is_hit(a, q, o[k] as int) by {
                        if k < p {
                            assert(o[k] == old_order[k]);
                        } else if k > p {
                            assert(o[k] == old_order[k - 1]);
                        }
                    }
                    assert forall|c: int| 0 <= c < i + 1 && is_hit(a, q, c) implies o.contains(c as usize) by {
                        if c == i {
                            assert(o[p as int] == i);
                        } else {
                            assert(old_order.contains(c as usize));
                            let k = choose|k: int| 0 <= k < old_order.len() && old_order[k] == c as usize;
                            if k < p {
                                assert(o[k] == c as usize);
                            } else {
                                assert(o[k + 1] == c as usize);
                            }
                        }
                    }
                }
            },
            None => {
                assert(!is_hit(a, q, i as int));
            },
        }
        i += 1;
    }
    let m = order.len();
    let mut shown: Vec<ClipboardItem> = Vec::new();
    let mut k: usize = 0;
    while k < m
        invariant
            m == order@.len(),
            n == a.len(),
            a == all@,
            q == query@,
            q.len() > 0,
            forall|k: int| 0 <= k < n ==> (skim_score(a[k].content@, q) is Some <==> skim_matches(#[trigger] a[k].content@, q)),
            forall|c: int| 0 <= c < n && is_hit(a, q, c) ==> order@.contains(c as usize),
            forall|j: int| 0 <= j < m ==> #[trigger] order@[j] < n,
            k <= m,
            shown@.len() == k,
            forall|j: int| 0 <= j < k ==> #[trigger] shown@[j] == a[order@[j] as int],
        decreases m - k,
    {
        shown.push(all[order[k]].clone());
        k += 1;
    }
    proof {
        let idx = order@.map_values(|u: usize| u as int);
        assert forall|c: int| 0 <= c < a.len() && is_hit(a, q, c) implies #[trigger] idx.contains(c) by {
            assert(order@.contains(c as usize));
            let j = choose|j: int| 0 <= j < order@.len() && order@[j] == c as usize;
            assert(idx[j] == c);
        }
        assert(is_ranking(a, q, idx));
        assert(shown@ =~= idx.map_values(|i: int| a[i]));
        assert forall|c: int|
            0 <= c < a.len() && !has_ascii_upper(q) && in_order_ignoring_case(q, #[trigger] a[c].content@)
            implies shown@.contains(a[c]) by {
            assert(skim_matches(a[c].content@, q));
            assert(is_hit(a, q, c));
            assert(order@.contains(c as usize));
            let j = choose|j: int| 0 <= j < order@.len() && order@[j] == c as usize;
            assert(shown@[j] == a[c]);
        }
    }
    shown
}

/// The list after capturing `item`: it goes first, and any other entry
/// with the same content goes away.
pub open spec fn prepended(items: Seq<ClipboardItem>, item: ClipboardItem) -> Seq<ClipboardItem> {
    seq![item] + items.filter(|x: ClipboardItem| x.content@ != item.content@)
}

/// Puts a freshly captured item at the top of the list, dropping entries
/// with the same content.
pub fn prepend_item(items: &mut Vec<ClipboardItem>, item: ClipboardItem)
    ensures
        final(items)@ == prepended(old(items)@, item),
{
    let ghost h = items@;
    let ghost p = |x: ClipboardItem| x.content@ != item.content@;
    let n = items.len();
    let mut out: Vec<ClipboardItem> = Vec::new();
    out.push(item.clone());
    let mut j: usize = 0;
    while j < n
        invariant
            n == h.len(),
            h == items@,
            j <= n,
            p == (|x: ClipboardItem| x.content@ != item.content@),
            out@ == seq![item] + h.take(j as int).filter(p),
        decreases n - j,
    {
        proof {
            assert(h.take(j + 1) =~= h.take(j as int).push(h[j as int]));
            h.take(j as int).lemma_filter_push(h[j as int], p);
        }
        if items[j].content != item.content {
            out.push(items[j].clone());
            assert(out@ =~= seq![item] + h.take(j + 1).filter(p));
        }
        j += 1;
    }
    assert(h.take(n as int) =~= h);
    *items = out;
}

/// After prepending, the new item is first and is the only entry with its
/// content; no other entry is added.
pub proof fn law_prepend_single_copy(items: Seq<ClipboardItem>, item: ClipboardItem)
    ensures
        prepended(items, item)[0] == item,
        forall|i: int| 1 <= i < prepended(items, item).len() ==> #[trigger] prepended(items, item)[i].content@ != item.content@,
        forall|i: int| 1 <= i < prepended(items, item).len() ==> items.contains(#[trigger] prepended(items, item)[i]),
        prepended(items, item).len() <= items.len() + 1,
{
    let p = |x: ClipboardItem| x.content@ != item.content@;
    let f = items.filter(p);
    let r = prepended(items, item);
    assert forall|i: int| 1 <= i < r.len() implies #[trigger] r[i].content@ != item.content@ && items.contains(r[i]) by {
        assert(r[i] == f[i - 1]);
        items.lemma_filter_pred(p, i - 1);
        assert(f.contains(f[i - 1]));
        items.lemma_filter_contains_rev(p, f[i - 1]);
    }
    items.lemma_filter_len(p);
}

/// An entry of the emoji picker.
#[derive(Debug)]
pub struct Emoji {
    /// The emoji itself.
    pub glyph: String,
    /// Its name.
    pub name: String,
    /// Search keywords.
    pub tags: String,
}

impl Clone for Emoji {
    fn clone(&self) -> (r: Self)
        ensures
            r == *self,
    {
        Emoji { glyph: self.glyph.clone(), name: self.name.clone(), tags: self.tags.clone() }
    }
}

/// The characters of `n` occur in `h` in order, not necessarily next to
/// one another.
pub open spec fn is_subsequence(n: Seq<char>, h: Seq<char>) -> bool
    decreases h.len(),
{
    if n.len() == 0 {
        true
    } else if h.len() == 0 {
        false
    } else if n[0] == h[0] {
        is_subsequence(n.drop_first(), h.drop_first())
    } else {
        is_subsequence(n, h.drop_first())
    }
}

/// Whether the characters of `needle` occur in `hay` in order.
pub fn chars_in_order(needle: &Vec<char>, hay: &Vec<char>) -> (b: bool)
    ensures
        b == is_subsequence(needle@, hay@),
{
    let mut i: usize = 0;
    let mut j: usize = 0;
    assert(needle@.skip(0) =~= needle@ && hay@.skip(0) =~= hay@);
    while j < needle.len() && i < hay.len()
        invariant
            i <= hay@.len(),
            j <= needle@.len(),
            is_subsequence(needle@, hay@) == is_subsequence(needle@.skip(j as int), hay@.skip(i as int)),
        decreases hay@.len() - i,
    {
        proof {
            let n = needle@.skip(j as int);
            let h = hay@.skip(i as int);
            assert(n.drop_first() =~= needle@.skip(j + 1));
            assert(h.drop_first() =~= hay@.skip(i + 1));
            assert(n[0] == needle@[j as int] && h[0] == hay@[i as int]);
        }
        if needle[j] == hay[i] {
            j += 1;
        }
        i += 1;
    }
    proof {
        if j < needle@.len() {
            assert(hay@.skip(i as int).len() == 0);
        } else {
            assert(needle@.skip(j as int).len() == 0);
        }
    }
    j == needle.len()
}

/// The emoji `e` matches the lower-cased query `q`: its characters occur in
/// order in the lower-cased name or tags.
pub open spec fn emoji_matches(e: Emoji, q: Seq<char>) -> bool {
    is_subsequence(q, lowercase(e.name@)) || is_subsequence(q, lowercase(e.tags@))
}

/// The emoji to show for `query`: all of them when it is empty, otherwise
/// those whose lower-cased name or tags fuzzy-match its lower-case form (a
/// query whose lower-case form is empty matches every emoji).
pub open spec fn emoji_shown(all: Seq<Emoji>, query: Seq<char>) -> Seq<Emoji> {
    if query.len() == 0 {
        all
    } else {
        all.filter(|e: Emoji| emoji_matches(e, lowercase(query)))
    }
}

/// The emoji to show for `query`.
pub fn filter_emoji(all: &Vec<Emoji>, query: &str) -> (shown: Vec<Emoji>)
    ensures
        shown@ == emoji_shown(all@, query@),
{
    if query.is_empty() {
        return all.clone();
    }
    let q = to_lowercase(query);
    let qv = chars_of(q.as_str());
    let ghost h = all@;
    let ghost ql = q@;
    let ghost p = |e: Emoji| emoji_matches(e, ql);
    let n = all.len();
    let mut out: Vec<Emoji> = Vec::new();
    let mut j: usize = 0;
    while j < n
        invariant
            n == h.len(),
            h == all@,
            ql == q@,
            qv@ == ql,
            ql == lowercase(query@),
            j <= n,
            p == (|e: Emoji| emoji_matches(e, ql)),
            out@ == h.take(j as int).filter(p),
        decreases n - j,
    {
        proof {
            assert(h.take(j + 1) =~= h.take(j as int).push(h[j as int]));
            h.take(j as int).lemma_filter_push(h[j as int], p);
        }
        let name = to_lowercase(all[j].name.as_str());
        let tags = to_lowercase(all[j].tags.as_str());
        let hit = chars_in_order(&qv, &chars_of(name.as_str())) || chars_in_order(&qv, &chars_of(tags.as_str()));
        if hit {
            out.push(all[j].clone());
        }
        j += 1;
    }
    assert(h.take(n as int) =~= h);
    out
}

} // verus!
