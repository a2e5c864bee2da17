//! What the store's operations promise when taken together.

use vstd::prelude::*;
use crate::history::ClipboardItem;
use crate::shortcuts::Shortcut;
use crate::storage::{is_history_listing, recency_before, recency_rank, sql_limit, survives_eviction, StorageError, StorageView};

verus! {

/// Filtering with a weaker predicate keeps at least as many elements.
pub proof fn lemma_filter_len_mono<A>(h: Seq<A>, p: spec_fn(A) -> bool, q: spec_fn(A) -> bool)
    requires
        forall|i: int| 0 <= i < h.len() && p(h[i]) ==> q(h[i]),
    ensures
        h.filter(p).len() <= h.filter(q).len(),
    decreases h.len(),
{
    reveal(Seq::filter);
    if h.len() > 0 {
        let t = h.drop_last();
        assert forall|i: int| 0 <= i < t.len() && p(t[i]) implies q(t[i]) by {
            assert(t[i] == h[i]);
        }
        lemma_filter_len_mono(t, p, q);
        assert(p(h.last()) ==> q(h[h.len() - 1]));
    }
}

/// Filtering twice is filtering once with both predicates.
pub proof fn lemma_filter_filter<A>(h: Seq<A>, p: spec_fn(A) -> bool, q: spec_fn(A) -> bool)
    ensures
        h.filter(p).filter(q) == h.filter(|x: A| p(x) && q(x)),
    decreases h.len(),
{
    reveal(Seq::filter);
    let pq = |x: A| p(x) && q(x);
    if h.len() > 0 {
        let t = h.drop_last();
        lemma_filter_filter(t, p, q);
        if p(h.last()) {
            t.filter(p).lemma_filter_push(h.last(), q);
            assert(h.filter(p) == t.filter(p).push(h.last()));
        }
        assert(h.filter(pq) == if pq(h.last()) {
            t.filter(pq).push(h.last())
        } else {
            t.filter(pq)
        });
    } else {
        assert(h.filter(p).filter(q) =~= h.filter(pq));
    }
}

/// A predicate that holds of every element keeps the whole sequence.
pub proof fn lemma_filter_all<A>(h: Seq<A>, p: spec_fn(A) -> bool)
    requires
        forall|i: int| 0 <= i < h.len() ==> p(h[i]),
    ensures
        h.filter(p) == h,
    decreases h.len(),
{
    reveal(Seq::filter);
    if h.len() > 0 {
        let t = h.drop_last();
        assert forall|i: int| 0 <= i < t.len() implies p(t[i]) by {
            assert(t[i] == h[i]);
        }
        lemma_filter_all(t, p);
        assert(h.last() == h[h.len() - 1]);
        assert(t.push(h.last()) =~= h);
    } else {
        assert(h.filter(p) =~= h);
    }
}

/// Ids of distinct positions differ.
pub open spec fn distinct_ids(h: Seq<ClipboardItem>) -> bool {
    forall|a: int, b: int| 0 <= a < h.len() && 0 <= b < h.len() && a != b ==> h[a].id != h[b].id
}

/// `h[k]` satisfies `p` and every other row that does comes before it by
/// recency.
pub open spec fn latest_among(h: Seq<ClipboardItem>, p: spec_fn(ClipboardItem) -> bool, k: int) -> bool {
    &&& 0 <= k < h.len()
    &&& p(h[k])
    &&& forall|j: int|
        0 <= j < h.len() && p(#[trigger] h[j]) && j != k ==> recency_before(h[j], h[k])
}

/// Among the rows that satisfy `p` there is a latest one by recency.
proof fn lemma_latest_exists(h: Seq<ClipboardItem>, p: spec_fn(ClipboardItem) -> bool, i: int)
    requires
        distinct_ids(h),
        0 <= i < h.len(),
        p(h[i]),
    ensures
        exists|k: int| latest_among(h, p, k),
    decreases h.len(),
{
    let t = h.drop_last();
    let n = h.len();
    assert forall|a: int, b: int| 0 <= a < t.len() && 0 <= b < t.len() && a != b implies t[a].id
        != t[b].id by {
        assert(t[a] == h[a] && t[b] == h[b]);
    }
    if exists|j: int| 0 <= j < n - 1 && p(h[j]) {
        let j0 = choose|j: int| 0 <= j < n - 1 && p(h[j]);
        assert(t[j0] == h[j0]);
        lemma_latest_exists(t, p, j0);
        let k = choose|k: int| latest_among(t, p, k);
        assert(t[k] == h[k]);
        if p(h[n - 1]) && recency_before(h[k], h[n - 1]) {
            assert forall|j: int| 0 <= j < n && p(#[trigger] h[j]) && j != n - 1 implies recency_before(
                h[j],
                h[n - 1],
            ) by {
                if j != k {
                    assert(t[j] == h[j]);
                    assert(recency_before(t[j], t[k]));
                }
            }
            assert(latest_among(h, p, n - 1));
        } else {
            assert forall|j: int| 0 <= j < n && p(#[trigger] h[j]) && j != k implies recency_before(
                h[j],
                h[k],
            ) by {
                if j < n - 1 {
                    assert(t[j] == h[j]);
                    assert(recency_before(t[j], t[k]));
                } else {
                    assert(h[j].id != h[k].id);
                }
            }
            assert(latest_among(h, p, k));
        }
    } else {
        assert(i == n - 1);
        assert forall|j: int| 0 <= j < n && p(#[trigger] h[j]) && j != n - 1 implies recency_before(
            h[j],
            h[n - 1],
        ) by {}
        assert(latest_among(h, p, n - 1));
    }
}

/// Adding one element that occurs once adds one to a count.
proof fn lemma_count_with_one_more(h: Seq<ClipboardItem>, p: spec_fn(ClipboardItem) -> bool, y: ClipboardItem)
    requires
        distinct_ids(h),
        h.contains(y),
        !p(y),
    ensures
        h.filter(|x: ClipboardItem| p(x) || x == y).len() == h.filter(p).len() + 1,
    decreases h.len(),
{
    reveal(Seq::filter);
    let py = |x: ClipboardItem| p(x) || x == y;
    let t = h.drop_last();
    let n = h.len();
    let k = choose|k: int| 0 <= k < h.len() && h[k] == y;
    assert forall|a: int, b: int| 0 <= a < t.len() && 0 <= b < t.len() && a != b implies t[a].id
        != t[b].id by {
        assert(t[a] == h[a] && t[b] == h[b]);
    }
    if k < n - 1 {
        assert(t[k] == y);
        lemma_count_with_one_more(t, p, y);
        assert(h[n - 1].id != h[k].id);
        assert(h.last() != y);
        assert(py(h.last()) == p(h.last()));
    } else {
        assert forall|i: int| 0 <= i < t.len() implies t[i] != y by {
            assert(t[i] == h[i]);
            assert(h[i].id != h[n - 1].id);
        }
        assert forall|i: int| 0 <= i < t.len() && py(t[i]) implies p(t[i]) by {}
        assert forall|i: int| 0 <= i < t.len() && p(t[i]) implies py(t[i]) by {}
        lemma_filter_len_mono(t, py, p);
        lemma_filter_len_mono(t, p, py);
        assert(h.last() == y);
    }
}

/// At most `m` rows of `h` have a recency rank below `m`.
pub proof fn lemma_rank_below_count(h: Seq<ClipboardItem>, m: nat)
    requires
        distinct_ids(h),
    ensures
        h.filter(|x: ClipboardItem| recency_rank(h, x) < m).len() <= m,
{
    let inr = |x: ClipboardItem| recency_rank(h, x) < m;
    if exists|i: int| 0 <= i < h.len() && inr(h[i]) {
        let i0 = choose|i: int| 0 <= i < h.len() && inr(h[i]);
        lemma_latest_exists(h, inr, i0);
        let k = choose|k: int| latest_among(h, inr, k);
        let y = h[k];
        let before_y = |x: ClipboardItem| recency_before(x, y);
        let upto_y = |x: ClipboardItem| before_y(x) || x == y;
        assert forall|i: int| 0 <= i < h.len() && inr(h[i]) implies upto_y(h[i]) by {
            if i != k {
                assert(recency_before(h[i], h[k]));
            }
        }
        lemma_filter_len_mono(h, inr, upto_y);
        assert(h.contains(y));
        lemma_count_with_one_more(h, before_y, y);
        assert(h.filter(before_y).len() == recency_rank(h, y));
    } else {
        assert forall|i: int| 0 <= i < h.len() && inr(h[i]) implies false by {}
        lemma_filter_len_mono(h, inr, |x: ClipboardItem| false);
        lemma_filter_none(h);
    }
}

proof fn lemma_filter_none(h: Seq<ClipboardItem>)
    ensures
        h.filter(|x: ClipboardItem| false).len() == 0,
    decreases h.len(),
{
    reveal(Seq::filter);
    if h.len() > 0 {
        lemma_filter_none(h.drop_last());
    }
}

proof fn lemma_wf_distinct_ids(s: StorageView)
    requires
        s.wf(),
    ensures
        distinct_ids(s.history),
{
    assert forall|a: int, b: int|
        0 <= a < s.history.len() && 0 <= b < s.history.len() && a != b implies s.history[a].id
        != s.history[b].id by {
        if a < b {
            assert(s.history[a].id < s.history[b].id);
        } else {
            assert(s.history[b].id < s.history[a].id);
        }
    }
}

/// The number of unpinned history rows.
pub open spec fn unpinned_count(s: StorageView) -> nat {
    s.history.filter(|x: ClipboardItem| !x.pinned).len()
}

/// Inserting keeps the store's invariant.
pub proof fn lemma_insert_keeps_wf(s: StorageView, item: ClipboardItem)
    requires
        s.wf(),
    ensures
        s.insert_item(item).0.wf(),
{
    let s2 = s.insert_item(item).0;
    if s.has_content(item.content@) {
        assert forall|i: int, j: int| 0 <= i < j < s2.history.len() implies s2.history[i].id
            < s2.history[j].id && s2.history[i].content@ != s2.history[j].content@ by {
            assert(s2.history[i].id == s.history[i].id && s2.history[j].id == s.history[j].id);
        }
        assert forall|i: int| 0 <= i < s2.history.len() implies 0 < #[trigger] s2.history[i].id
            <= s2.history_seq by {
            assert(s2.history[i].id == s.history[i].id);
        }
    } else if s.history_seq < i64::MAX {
        let n = s.history.len();
        assert forall|i: int, j: int| 0 <= i < j < s2.history.len() implies s2.history[i].id
            < s2.history[j].id && s2.history[i].content@ != s2.history[j].content@ by {
            assert(s2.history[i] == s.history[i]);
            if j < n {
                assert(s2.history[j] == s.history[j]);
            } else {
                assert(s.history[i].id <= s.history_seq);
            }
        }
        assert forall|i: int| 0 <= i < s2.history.len() implies 0 < #[trigger] s2.history[i].id
            <= s2.history_seq by {
            if i < n {
                assert(s2.history[i] == s.history[i]);
            }
        }
    }
}

// ── Laws ─────────────────────────────────────────────────────────────────────

/// After an insert that succeeds, the content is in the history.
pub proof fn law_insert_then_exists(s: StorageView, item: ClipboardItem)
    requires
        s.wf(),
    ensures
        s.insert_item(item).1 is Ok ==> s.insert_item(item).0.has_content(item.content@),
{
    let (after, r) = s.insert_item(item);
    if s.has_content(item.content@) {
        let i = choose|i: int| 0 <= i < s.history.len() && #[trigger] s.history[i].content@ == item.content@;
        assert(after.history[i].content@ == item.content@);
    } else if r is Ok {
        assert(after.history[after.history.len() - 1].content@ == item.content@);
    }
}

/// Inserting content that is already stored adds no row: the row keeps its
/// id and pin state, takes the new timestamp, and its id is returned.
pub proof fn law_insert_existing_refreshes(s: StorageView, item: ClipboardItem, i: int)
    requires
        s.wf(),
        0 <= i < s.history.len(),
        s.history[i].content@ == item.content@,
    ensures
        s.insert_item(item).0.history.len() == s.history.len(),
        s.insert_item(item).0.history[i].timestamp == item.timestamp,
        s.insert_item(item).0.history[i].id == s.history[i].id,
        s.insert_item(item).0.history[i].pinned == s.history[i].pinned,
        s.insert_item(item).1 == Ok::<i64, StorageError>(s.history[i].id),
{
    assert(s.has_content(item.content@));
    let c = s.content_index(item.content@);
    if c < i {
        assert(s.history[c].content@ != s.history[i].content@);
    } else if c > i {
        assert(s.history[i].content@ != s.history[c].content@);
    }
}

/// Stored content stays findable: a later insert of any content, a pin
/// change and the deletion of a shortcut keep it, and so does deleting a
/// history row with another id.
pub proof fn law_content_stays_stored(s: StorageView, c: Seq<char>, item: ClipboardItem, id: i64, pinned: bool)
    requires
        s.wf(),
        s.has_content(c),
    ensures
        s.insert_item(item).0.has_content(c),
        s.set_pinned(id, pinned).has_content(c),
        s.delete_shortcut(id).has_content(c),
        s.history[s.content_index(c)].id != id ==> s.delete_item(id).has_content(c),
{
    let i = s.content_index(c);
    assert(0 <= i < s.history.len() && s.history[i].content@ == c);
    let h1 = s.insert_item(item).0.history;
    assert(h1[i].content@ == c);
    let h2 = s.set_pinned(id, pinned).history;
    assert(h2[i].content@ == c);
    assert(s.delete_shortcut(id).history[i].content@ == c);
    if s.history[i].id != id {
        let p = |r: ClipboardItem| r.id != id;
        s.history.lemma_filter_contains(p, i);
        let d = s.delete_item(id).history;
        assert(d.contains(s.history[i]));
        let k = choose|k: int| 0 <= k < d.len() && d[k] == s.history[i];
        assert(d[k].content@ == c);
    }
}

/// Inserting a shortcut leaves the clipboard history as it was.
pub proof fn law_shortcut_insert_keeps_history(
    s: StorageView,
    after: StorageView,
    r: Result<i64, StorageError>,
    name: Seq<char>,
    command: Seq<char>,
    created: i64,
)
    requires
        s.wf(),
        s.shortcut_inserted(after, r, name, command, created),
    ensures
        after.history == s.history,
        after.history_seq == s.history_seq,
{
}

/// Deleting a shortcut by id leaves no shortcut with that id, keeps every
/// shortcut with another id, and keeps the order of the rest.
pub proof fn law_delete_shortcut_removes_only_that_row(s: StorageView, id: i64)
    requires
        s.wf(),
    ensures
        forall|i: int| 0 <= i < s.delete_shortcut(id).shortcuts.len() ==> #[trigger] s.delete_shortcut(id).shortcuts[i].id != id,
        forall|x: Shortcut| s.shortcuts.contains(x) && x.id != id ==> #[trigger] s.delete_shortcut(id).shortcuts.contains(x),
        s.delete_shortcut(id).shortcuts.len() + (if s.has_shortcut_id(id) { 1int } else { 0int }) == s.shortcuts.len(),
        s.delete_shortcut(id).history == s.history,
{
    let p = |r: Shortcut| r.id != id;
    let d = s.delete_shortcut(id).shortcuts;
    assert forall|i: int| 0 <= i < d.len() implies #[trigger] d[i].id != id by {
        s.shortcuts.lemma_filter_pred(p, i);
    }
    assert forall|x: Shortcut| s.shortcuts.contains(x) && x.id != id implies #[trigger] d.contains(x) by {
        let i = choose|i: int| 0 <= i < s.shortcuts.len() && s.shortcuts[i] == x;
        s.shortcuts.lemma_filter_contains(p, i);
    }
    lemma_filter_len_unique(s.shortcuts, id);
}

/// Filtering out one id from rows with distinct ids removes one row when
/// the id occurs and none otherwise.
proof fn lemma_filter_len_unique(sh: Seq<Shortcut>, id: i64)
    requires
        forall|a: int, b: int| 0 <= a < b < sh.len() ==> sh[a].id < sh[b].id,
    ensures
        sh.filter(|r: Shortcut| r.id != id).len() + (if exists|i: int| 0 <= i < sh.len() && #[trigger] sh[i].id == id { 1int } else { 0int }) == sh.len(),
    decreases sh.len(),
{
    reveal(Seq::filter);
    if sh.len() > 0 {
        let t = sh.drop_last();
        lemma_filter_len_unique(t, id);
        let found_t = exists|i: int| 0 <= i < t.len() && #[trigger] t[i].id == id;
        let found = exists|i: int| 0 <= i < sh.len() && #[trigger] sh[i].id == id;
        if found_t {
            let i = choose|i: int| 0 <= i < t.len() && #[trigger] t[i].id == id;
            assert(sh[i].id == id);
            assert(sh[i].id < sh[sh.len() - 1].id);
        }
        if found && !found_t {
            let i = choose|i: int| 0 <= i < sh.len() && #[trigger] sh[i].id == id;
            if i < sh.len() - 1 {
                assert(t[i].id == id);
            }
        }
        if !found {
            assert(!(sh[sh.len() - 1].id == id));
        }
        if sh[sh.len() - 1].id == id {
            assert(found);
        }
    }
}

/// A pinned row survives eviction and clearing.
pub proof fn law_pinned_never_evicted(s: StorageView, max: usize, x: ClipboardItem)
    requires
        s.wf(),
        s.history.contains(x),
        x.pinned,
    ensures
        s.evict_old(max).history.contains(x),
        s.clear_history().history.contains(x),
{
    let i = choose|i: int| 0 <= i < s.history.len() && s.history[i] == x;
    s.history.lemma_filter_contains(|r: ClipboardItem| survives_eviction(s.history, r, sql_limit(max)), i);
    s.history.lemma_filter_contains(|r: ClipboardItem| r.pinned, i);
}

/// Clearing leaves exactly the pinned rows.
pub proof fn law_clear_keeps_only_pinned(s: StorageView)
    requires
        s.wf(),
    ensures
        forall|x: ClipboardItem| #[trigger] s.clear_history().history.contains(x) <==> (s.history.contains(x) && x.pinned),
{
    let p = |r: ClipboardItem| r.pinned;
    assert forall|x: ClipboardItem| #[trigger] s.clear_history().history.contains(x) <==> (
    s.history.contains(x) && x.pinned) by {
        if s.history.filter(p).contains(x) {
            s.history.lemma_filter_contains_rev(p, x);
            let k = choose|k: int| 0 <= k < s.history.filter(p).len() && s.history.filter(p)[k] == x;
            s.history.lemma_filter_pred(p, k);
        }
        if s.history.contains(x) && x.pinned {
            let i = choose|i: int| 0 <= i < s.history.len() && s.history[i] == x;
            s.history.lemma_filter_contains(p, i);
        }
    }
}

/// Every unpinned row among the `max` most recent survives eviction.
pub proof fn law_evict_keeps_recent(s: StorageView, max: usize, x: ClipboardItem)
    requires
        s.wf(),
        s.history.contains(x),
        max <= i64::MAX,
        recency_rank(s.history, x) < max,
    ensures
        s.evict_old(max).history.contains(x),
{
    let i = choose|i: int| 0 <= i < s.history.len() && s.history[i] == x;
    s.history.lemma_filter_contains(|r: ClipboardItem| survives_eviction(s.history, r, sql_limit(max)), i);
}

/// After eviction with cap `max`, at most `max` unpinned rows remain.
pub proof fn law_evict_caps_unpinned(s: StorageView, max: usize)
    requires
        s.wf(),
        max <= i64::MAX,
    ensures
        unpinned_count(s.evict_old(max)) <= max,
{
    let h = s.history;
    let keep = |r: ClipboardItem| survives_eviction(h, r, sql_limit(max));
    let unp = |x: ClipboardItem| !x.pinned;
    let inr = |x: ClipboardItem| recency_rank(h, x) < max;
    lemma_filter_filter(h, keep, unp);
    let both = |x: ClipboardItem| keep(x) && unp(x);
    assert forall|i: int| 0 <= i < h.len() && both(h[i]) implies inr(h[i]) by {}
    lemma_filter_len_mono(h, both, inr);
    lemma_wf_distinct_ids(s);
    lemma_rank_below_count(h, max as nat);
    assert(h.filter(keep).filter(unp) == h.filter(both));
}

/// Evicting twice with the same cap removes nothing more.
pub proof fn law_evict_idempotent(s: StorageView, max: usize)
    requires
        s.wf(),
    ensures
        s.evict_old(max).evict_old(max) == s.evict_old(max),
{
    let h = s.history;
    let lim = sql_limit(max);
    let keep = |r: ClipboardItem| survives_eviction(h, r, lim);
    let h2 = h.filter(keep);
    let keep2 = |r: ClipboardItem| survives_eviction(h2, r, lim);
    assert forall|i: int| 0 <= i < h2.len() implies keep2(h2[i]) by {
        let x = h2[i];
        h.lemma_filter_pred(keep, i);
        if !x.pinned && lim is Some {
            let m = lim->0;
            let bx = |y: ClipboardItem| recency_before(y, x);
            lemma_filter_filter(h, keep, bx);
            let kb = |y: ClipboardItem| keep(y) && bx(y);
            assert forall|j: int| 0 <= j < h.len() && kb(h[j]) implies bx(h[j]) by {}
            lemma_filter_len_mono(h, kb, bx);
            assert(h2.filter(bx) == h.filter(kb));
        }
    }
    lemma_filter_all(h2, keep2);
    let e = s.evict_old(max);
    assert(e.history == h2);
    assert(e.evict_old(max).history == h2.filter(keep2));
}

/// Deleting an id leaves no row with that id, and every other row stays.
pub proof fn law_delete_removes_only_that_row(s: StorageView, id: i64)
    requires
        s.wf(),
    ensures
        !s.delete_item(id).has_item_id(id),
        forall|x: ClipboardItem| s.history.contains(x) && x.id != id ==> #[trigger] s.delete_item(id).history.contains(x),
{
    let p = |r: ClipboardItem| r.id != id;
    let d = s.delete_item(id).history;
    assert forall|i: int| 0 <= i < d.len() implies #[trigger] d[i].id != id by {
        s.history.lemma_filter_pred(p, i);
    }
    assert forall|x: ClipboardItem| s.history.contains(x) && x.id != id implies #[trigger] s.delete_item(id).history.contains(x) by {
        let i = choose|i: int| 0 <= i < s.history.len() && s.history[i] == x;
        s.history.lemma_filter_contains(p, i);
    }
}

/// Inserting with a timestamp newer than every stored one puts the entry
/// at the top of the history: a listing with room for one row or more
/// starts with it, whether the content was new or copied again.
pub proof fn law_newest_insert_leads_listing(
    s: StorageView,
    item: ClipboardItem,
    out: Seq<ClipboardItem>,
    limit: Option<nat>,
)
    requires
        s.wf(),
        forall|i: int| 0 <= i < s.history.len() ==> #[trigger] s.history[i].timestamp < item.timestamp,
        s.insert_item(item).1 is Ok,
        is_history_listing(s.insert_item(item).0.history, out, limit),
        limit != Some(0nat),
    ensures
        out.len() > 0,
        out[0].content@ == item.content@,
        out[0].timestamp == item.timestamp,
{
    let h2 = s.insert_item(item).0.history;
    let k: int = if s.has_content(item.content@) {
        choose|i: int| 0 <= i < s.history.len() && #[trigger] s.history[i].content@ == item.content@
    } else {
        h2.len() - 1
    };
    assert(0 <= k < h2.len());
    assert(h2[k].content@ == item.content@ && h2[k].timestamp == item.timestamp);
    assert forall|j: int| 0 <= j < h2.len() && j != k implies recency_before(h2[k], #[trigger] h2[j]) by {
        if s.has_content(item.content@) {
            if k < j {
                assert(s.history[k].content@ != s.history[j].content@);
            } else {
                assert(s.history[j].content@ != s.history[k].content@);
            }
        }
        assert(h2[j] == s.history[j]);
    }
    assert(out.len() > 0);
    assert(h2.contains(out[0]));
    let j = choose|j: int| 0 <= j < h2.len() && h2[j] == out[0];
    if j != k {
        assert(recency_before(h2[k], out[0]));
        if out.contains(h2[k]) {
            let i = choose|i: int| 0 <= i < out.len() && out[i] == h2[k];
            assert(i != 0);
            assert(recency_before(out[0], out[i]));
        } else {
            assert(h2.contains(h2[k]));
            assert(recency_before(out[0], h2[k]));
        }
    }
}

/// A row more recent than every other row of `h` starts every listing of
/// `h` that has room for a row.
pub proof fn lemma_listing_starts_with_most_recent(
    h: Seq<ClipboardItem>,
    out: Seq<ClipboardItem>,
    limit: Option<nat>,
    x: ClipboardItem,
)
    requires
        is_history_listing(h, out, limit),
        limit != Some(0nat),
        h.contains(x),
        forall|y: ClipboardItem| h.contains(y) && y != x ==> recency_before(x, y),
    ensures
        out.len() > 0,
        out[0] == x,
{
    assert(out.len() > 0);
    assert(h.contains(out[0]));
    if out[0] != x {
        assert(recency_before(x, out[0]));
        if out.contains(x) {
            let i = choose|i: int| 0 <= i < out.len() && out[i] == x;
            assert(i != 0);
            assert(recency_before(out[0], out[i]));
        } else {
            assert(recency_before(out[0], x));
        }
    }
}

} // verus!
