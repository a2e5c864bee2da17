//! The clipboard history and shortcut tables.
//!
//! Each table behaves as a SQL table whose integer primary key is
//! allocated with `AUTOINCREMENT`: a new row gets one more than the
//! largest id ever allocated in that table, and allocation fails once that
//! counter has reached `i64::MAX`.  Rows are kept in ascending id order.

use vstd::prelude::*;
use crate::history::{unix_now, ClipboardItem};
use crate::paths::{db_path_in, history_db_path};
use crate::shortcuts::Shortcut;

verus! {

/// Why a write to the store was refused.
#[derive(Debug, Clone, Copy, PartialEq, Eq)]
pub enum StorageError {
    /// The table's id counter is exhausted (`SQLITE_FULL`).
    Full,
    /// The system clock reads before the Unix epoch, so the row cannot be
    /// given a time.
    ClockUnavailable,
}

/// The abstract contents of a [`Storage`].
pub struct StorageView {
    /// Clipboard history rows, in ascending id order.
    pub history: Seq<ClipboardItem>,
    /// Largest id ever allocated in the history table.
    pub history_seq: i64,
    /// Shortcut rows, in ascending id order.
    pub shortcuts: Seq<Shortcut>,
    /// Largest id ever allocated in the shortcut table.
    pub shortcut_seq: i64,
}

/// `a` comes before `b` among the most recent entries: newer timestamp
/// first, and among equal timestamps the older row first.
pub open spec fn recency_before(a: ClipboardItem, b: ClipboardItem) -> bool {
    a.timestamp > b.timestamp || (a.timestamp == b.timestamp && a.id < b.id)
}

/// `a` comes before `b` in the shortcut listing: newest first, and among
/// equal creation times the older row first.
pub open spec fn shortcut_before(a: Shortcut, b: Shortcut) -> bool {
    a.created > b.created || (a.created == b.created && a.id < b.id)
}

/// The number of rows of `h` that come before `x` by recency.
pub open spec fn recency_rank(h: Seq<ClipboardItem>, x: ClipboardItem) -> nat {
    h.filter(|y: ClipboardItem| recency_before(y, x)).len()
}

/// The row limit that a SQL `LIMIT` receives for `n`: values that do not fit
/// in `i64` wrap to negative numbers, which mean "no limit".
pub open spec fn sql_limit(n: usize) -> Option<nat> {
    if n <= i64::MAX {
        Some(n as nat)
    } else {
        None
    }
}

/// Whether eviction with the given limit keeps `x` (a row of `h`).
pub open spec fn survives_eviction(h: Seq<ClipboardItem>, x: ClipboardItem, limit: Option<nat>) -> bool {
    x.pinned || match limit {
        Some(m) => recency_rank(h, x) < m,
        None => true,
    }
}

/// `h` with the timestamp of the row holding `content` replaced.
pub open spec fn refresh_timestamp(h: Seq<ClipboardItem>, content: Seq<char>, timestamp: i64) -> Seq<ClipboardItem> {
    h.map_values(
        |r: ClipboardItem|
            if r.content@ == content {
                ClipboardItem { timestamp: timestamp, ..r }
            } else {
                r
            },
    )
}

/// `h` with the pinned flag of the row with id `id` replaced.
pub open spec fn repin(h: Seq<ClipboardItem>, id: i64, pinned: bool) -> Seq<ClipboardItem> {
    h.map_values(
        |r: ClipboardItem|
            if r.id == id {
                ClipboardItem { pinned: pinned, ..r }
            } else {
                r
            },
    )
}

impl StorageView {
    pub open spec fn history_wf(self) -> bool {
        &&& self.history_seq >= 0
        &&& forall|i: int, j: int|
            0 <= i < j < self.history.len() ==> self.history[i].id < self.history[j].id
        &&& forall|i: int|
            0 <= i < self.history.len() ==> 0 < #[trigger] self.history[i].id <= self.history_seq
        &&& forall|i: int, j: int|
            0 <= i < j < self.history.len() ==> self.history[i].content@
                != self.history[j].content@
    }

    pub open spec fn shortcuts_wf(self) -> bool {
        &&& self.shortcut_seq >= 0
        &&& forall|i: int, j: int|
            0 <= i < j < self.shortcuts.len() ==> self.shortcuts[i].id < self.shortcuts[j].id
        &&& forall|i: int|
            0 <= i < self.shortcuts.len() ==> 0 < #[trigger] self.shortcuts[i].id
                <= self.shortcut_seq
    }

    /// The store's invariant: ids ascend and lie within the allocated
    /// range, and no two history rows hold the same content.
    pub open spec fn wf(self) -> bool {
        self.history_wf() && self.shortcuts_wf()
    }

    /// Some history row holds `content`.
    pub open spec fn has_content(self, content: Seq<char>) -> bool {
        exists|i: int| 0 <= i < self.history.len() && #[trigger] self.history[i].content@ == content
    }

    /// Some shortcut row has id `id`.
    pub open spec fn has_shortcut_id(self, id: i64) -> bool {
        exists|i: int| 0 <= i < self.shortcuts.len() && #[trigger] self.shortcuts[i].id == id
    }

    /// Some history row has id `id`.
    pub open spec fn has_item_id(self, id: i64) -> bool {
        exists|i: int| 0 <= i < self.history.len() && #[trigger] self.history[i].id == id
    }

    /// The index of the history row holding `content` (meaningful when
    /// [`Self::has_content`] holds).
    pub open spec fn content_index(self, content: Seq<char>) -> int {
        choose|i: int| 0 <= i < self.history.len() && #[trigger] self.history[i].content@ == content
    }

    /// The store after inserting `item`, and the id that the insert returns:
    /// a row with the same content only gets the new timestamp (its pin
    /// state and id stay), and the call returns that row's id; otherwise a
    /// new row is appended with a fresh id.
    pub open spec fn insert_item(self, item: ClipboardItem) -> (StorageView, Result<i64, StorageError>) {
        if self.has_content(item.content@) {
            (
                StorageView {
                    history: refresh_timestamp(self.history, item.content@, item.timestamp),
                    ..self
                },
                Ok(self.history[self.content_index(item.content@)].id),
            )
        } else if self.history_seq == i64::MAX {
            (self, Err(StorageError::Full))
        } else {
            let id = (self.history_seq + 1) as i64;
            (
                StorageView {
                    history: self.history.push(ClipboardItem { id: id, ..item }),
                    history_seq: id,
                    ..self
                },
                Ok(id),
            )
        }
    }

    pub open spec fn set_pinned(self, id: i64, pinned: bool) -> StorageView {
        StorageView { history: repin(self.history, id, pinned), ..self }
    }

    pub open spec fn delete_item(self, id: i64) -> StorageView {
        StorageView { history: self.history.filter(|r: ClipboardItem| r.id != id), ..self }
    }

    /// The store after removing every unpinned history row.
    pub open spec fn clear_history(self) -> StorageView {
        StorageView { history: self.history.filter(|r: ClipboardItem| r.pinned), ..self }
    }

    /// The store after eviction with cap `max`: unpinned rows that are not
    /// among the `max` most recent rows go.
    pub open spec fn evict_old(self, max: usize) -> StorageView {
        StorageView {
            history: self.history.filter(
                |r: ClipboardItem| survives_eviction(self.history, r, sql_limit(max)),
            ),
            ..self
        }
    }

    /// `after` and `r` are the store and the result after inserting a
    /// shortcut with the given fields: a new row with a fresh id, or `Full`
    /// when the id counter is exhausted.
    pub open spec fn shortcut_inserted(
        self,
        after: StorageView,
        r: Result<i64, StorageError>,
        name: Seq<char>,
        command: Seq<char>,
        created: i64,
    ) -> bool {
        if self.shortcut_seq == i64::MAX {
            r == Err::<i64, StorageError>(StorageError::Full) && after == self
        } else {
            let id = (self.shortcut_seq + 1) as i64;
            &&& r == Ok::<i64, StorageError>(id)
            &&& after.shortcuts.len() == self.shortcuts.len() + 1
            &&& after.shortcuts.drop_last() == self.shortcuts
            &&& after.shortcuts.last().id == id
            &&& after.shortcuts.last().name@ == name
            &&& after.shortcuts.last().command@ == command
            &&& after.shortcuts.last().created == created
            &&& after == StorageView {
                shortcuts: after.shortcuts,
                shortcut_seq: id,
                ..self
            }
        }
    }

    pub open spec fn delete_shortcut(self, id: i64) -> StorageView {
        StorageView { shortcuts: self.shortcuts.filter(|s: Shortcut| s.id != id), ..self }
    }
}

/// `out` is the history listing of `h` under the row limit `limit`: the
/// most recent rows of `h`, newest first (older row first among equal
/// timestamps), as many as the limit allows; no row left out is more
/// recent than a row listed.
pub open spec fn is_history_listing(h: Seq<ClipboardItem>, out: Seq<ClipboardItem>, limit: Option<nat>) -> bool {
    &&& out.len() == match limit {
        Some(m) => if m < h.len() { m } else { h.len() },
        None => h.len(),
    }
    &&& forall|i: int, j: int| 0 <= i < j < out.len() ==> recency_before(out[i], out[j])
    &&& forall|i: int| 0 <= i < out.len() ==> h.contains(#[trigger] out[i])
    &&& forall|x: ClipboardItem|
        h.contains(x) && !out.contains(x) ==> forall|i: int|
            0 <= i < out.len() ==> recency_before(#[trigger] out[i], x)
}

/// `out` holds the rows of `s` ordered newest first (older row first among
/// equal creation times).
pub open spec fn is_shortcut_listing(s: Seq<Shortcut>, out: Seq<Shortcut>) -> bool {
    &&& out.len() == s.len()
    &&& forall|i: int, j: int| 0 <= i < j < out.len() ==> shortcut_before(out[i], out[j])
    &&& forall|x: Shortcut| #[trigger] s.contains(x) <==> out.contains(x)
}

/// The clipboard history and shortcut tables.
pub struct Storage {
    history: Vec<ClipboardItem>,
    history_seq: i64,
    shortcuts: Vec<Shortcut>,
    shortcut_seq: i64,
}

impl View for Storage {
    type V = StorageView;

    closed spec fn view(&self) -> StorageView {
        StorageView {
            history: self.history@,
            history_seq: self.history_seq,
            shortcuts: self.shortcuts@,
            shortcut_seq: self.shortcut_seq,
        }
    }
}

impl Storage {
    /// An empty store, as a freshly created database is.
    pub fn new() -> (s: Storage)
        ensures
            s@.wf(),
            s@.history.len() == 0,
            s@.shortcuts.len() == 0,
            s@.history_seq == 0,
            s@.shortcut_seq == 0,
    {
        Storage {
            history: Vec::new(),
            history_seq: 0,
            shortcuts: Vec::new(),
            shortcut_seq: 0,
        }
    }

    /// Path to the database file, `<data dir>/clipdeck/history.db`.
    pub fn db_path() -> (p: String)
        ensures
            exists|d: Option<Seq<char>>| #[trigger] db_path_in(d) == p@,
    {
        history_db_path()
    }

    /// Index of the history row holding `content`.
    fn find_content(&self, content: &String) -> (r: Option<usize>)
        ensures
            match r {
                Some(k) => k < self@.history.len() && self@.history[k as int].content@ == content@,
                None => !self@.has_content(content@),
            },
    {
        let n = self.history.len();
        let mut k: usize = 0;
        while k < n
            invariant
                n == self.history@.len(),
                k <= n,
                forall|j: int| 0 <= j < k ==> self.history@[j].content@ != content@,
            decreases n - k,
        {
            if self.history[k].content == *content {
                return Some(k);
            }
            k += 1;
        }
        None
    }

    /// Whether some history row holds `content`.
    pub fn exists_content(&self, content: &str) -> (b: bool)
        ensures
            b == self@.has_content(content@),
    {
        let c = String::from_str(content);
        self.find_content(&c).is_some()
    }

    /// Inserts `item`, returning the id of the row that holds its content.
    ///
    /// An entry with the same content is updated instead: its timestamp is
    /// refreshed, which moves it to the top of the history, and its id is
    /// returned.
    pub fn insert_item(&mut self, item: &ClipboardItem) -> (r: Result<i64, StorageError>)
        requires
            old(self)@.wf(),
        ensures
            final(self)@.wf(),
            (final(self)@, r) == old(self)@.insert_item(*item),
    {
        match self.find_content(&item.content) {
            Some(k) => {
                let found = self.history[k].id;
                proof {
                    let c = old(self)@.content_index(item.content@);
                    assert(old(self)@.history[k as int].content@ == item.content@);
                    assert(old(self)@.has_content(item.content@));
                    if c < k {
                        assert(old(self)@.history[c].content@ != old(self)@.history[k as int].content@);
                    } else if c > k {
                        assert(old(self)@.history[k as int].content@ != old(self)@.history[c].content@);
                    }
                    assert(found == old(self)@.history[c].id);
                }
                let ghost h = self.history@;
                let ghost f = |r: ClipboardItem|
                    if r.content@ == item.content@ {
                        ClipboardItem { timestamp: item.timestamp, ..r }
                    } else {
                        r
                    };
                let n = self.history.len();
                let mut out: Vec<ClipboardItem> = Vec::new();
                let mut j: usize = 0;
                while j < n
                    invariant
                        n == h.len(),
                        h == self.history@,
                        self@.wf(),
                        k < n,
                        h[k as int].content@ == item.content@,
                        forall|a: int, b: int| 0 <= a < b < n ==> h[a].content@ != h[b].content@,
                        f == (|r: ClipboardItem|
                            if r.content@ == item.content@ {
                                ClipboardItem { timestamp: item.timestamp, ..r }
                            } else {
                                r
                            }),
                        j <= n,
                        out@ == h.take(j as int).map_values(f),
                    decreases n - j,
                {
                    let row = &self.history[j];
                    let new_row = if j == k {
                        ClipboardItem {
                            id: row.id,
                            content: row.content.clone(),
                            timestamp: item.timestamp,
                            pinned: row.pinned,
                        }
                    } else {
                        row.clone()
                    };
                    proof {
                        if j != k {
                            if j < k {
                                assert(h[j as int].content@ != h[k as int].content@);
                            } else {
                                assert(h[k as int].content@ != h[j as int].content@);
                            }
                        }
                        assert(new_row == f(h[j as int]));
                    }
                    out.push(new_row);
                    assert(out@ =~= h.take(j + 1).map_values(f));
                    j += 1;
                }
                assert(h.take(n as int) =~= h);
                self.history = out;
                assert(self@.history =~= refresh_timestamp(h, item.content@, item.timestamp));
                proof {
                    lemma_same_keys_keeps_history_wf(old(self)@, self@.history);
                }
                Ok(found)
            },
            None => {
                if self.history_seq == i64::MAX {
                    return Err(StorageError::Full);
                }
                let id = self.history_seq + 1;
                let row = ClipboardItem {
                    id: id,
                    content: item.content.clone(),
                    timestamp: item.timestamp,
                    pinned: item.pinned,
                };
                let ghost old_view = self@;
                self.history.push(row);
                self.history_seq = id;
                proof {
                    let h2 = self@.history;
                    assert(h2 == old_view.history.push(row));
                    assert forall|i: int, j: int| 0 <= i < j < h2.len() implies h2[i].id < h2[j].id
                        && h2[i].content@ != h2[j].content@ by {
                        if j == h2.len() - 1 {
                            assert(h2[i] == old_view.history[i]);
                            assert(old_view.history[i].id <= old_view.history_seq);
                        } else {
                            assert(h2[i] == old_view.history[i]);
                            assert(h2[j] == old_view.history[j]);
                        }
                    }
                    assert forall|i: int| 0 <= i < h2.len() implies 0 < #[trigger] h2[i].id
                        <= self@.history_seq by {
                        if i < h2.len() - 1 {
                            assert(h2[i] == old_view.history[i]);
                        }
                    }
                    assert(self@ == old_view.insert_item(*item).0);
                }
                Ok(id)
            },
        }
    }

    /// Sets the pinned flag of the row with id `id` (no row: no change).
    pub fn set_pinned(&mut self, id: i64, pinned: bool)
        requires
            old(self)@.wf(),
        ensures
            final(self)@.wf(),
            final(self)@ == old(self)@.set_pinned(id, pinned),
    {
        let ghost h = self.history@;
        let ghost f = |r: ClipboardItem|
            if r.id == id {
                ClipboardItem { pinned: pinned, ..r }
            } else {
                r
            };
        let n = self.history.len();
        let mut out: Vec<ClipboardItem> = Vec::new();
        let mut j: usize = 0;
        while j < n
            invariant
                n == h.len(),
                h == self.history@,
                f == (|r: ClipboardItem|
                    if r.id == id {
                        ClipboardItem { pinned: pinned, ..r }
                    } else {
                        r
                    }),
                j <= n,
                out@ == h.take(j as int).map_values(f),
            decreases n - j,
        {
            let row = &self.history[j];
            let new_row = if row.id == id {
                ClipboardItem {
                    id: row.id,
                    content: row.content.clone(),
                    timestamp: row.timestamp,
                    pinned: pinned,
                }
            } else {
                row.clone()
            };
            out.push(new_row);
            assert(out@ =~= h.take(j + 1).map_values(f));
            j += 1;
        }
        assert(h.take(n as int) =~= h);
        self.history = out;
        assert(self@.history =~= repin(h, id, pinned));
        proof {
            lemma_same_keys_keeps_history_wf(old(self)@, self@.history);
        }
    }

    /// Deletes the history row with id `id` (no row: no change).
    pub fn delete_item(&mut self, id: i64)
        requires
            old(self)@.wf(),
        ensures
            final(self)@.wf(),
            final(self)@ == old(self)@.delete_item(id),
    {
        let ghost h = self.history@;
        let ghost p = |r: ClipboardItem| r.id != id;
        let n = self.history.len();
        let mut out: Vec<ClipboardItem> = Vec::new();
        let mut j: usize = 0;
        while j < n
            invariant
                n == h.len(),
                h == self.history@,
                j <= n,
                p == (|r: ClipboardItem| r.id != id),
                out@ == h.take(j as int).filter(p),
            decreases n - j,
        {
            proof {
                assert(h.take(j + 1) =~= h.take(j as int).push(h[j as int]));
                h.take(j as int).lemma_filter_push(h[j as int], p);
            }
            if self.history[j].id != id {
                out.push(self.history[j].clone());
            }
            j += 1;
        }
        assert(h.take(n as int) =~= h);
        self.history = out;
        proof {
            lemma_filter_keeps_history_wf(old(self)@, p);
        }
    }

    /// The recency rank of the history row at index `j`.
    fn recency_rank_at(&self, j: usize) -> (c: usize)
        requires
            j < self@.history.len(),
        ensures
            c == recency_rank(self@.history, self@.history[j as int]),
    {
        let ghost h = self.history@;
        let ghost x = h[j as int];
        let ghost p = |y: ClipboardItem| recency_before(y, x);
        let n = self.history.len();
        let ts = self.history[j].timestamp;
        let id = self.history[j].id;
        let mut c: usize = 0;
        let mut i: usize = 0;
        while i < n
            invariant
                n == h.len(),
                h == self.history@,
                j < n,
                x == h[j as int],
                ts == x.timestamp,
                id == x.id,
                p == (|y: ClipboardItem| recency_before(y, x)),
                i <= n,
                c == h.take(i as int).filter(p).len(),
                c <= i,
            decreases n - i,
        {
            proof {
                assert(h.take(i + 1) =~= h.take(i as int).push(h[i as int]));
                h.take(i as int).lemma_filter_len_push(p, h[i as int]);
            }
            let r = &self.history[i];
            if r.timestamp > ts || (r.timestamp == ts && r.id < id) {
                c += 1;
            }
            i += 1;
        }
        assert(h.take(n as int) =~= h);
        c
    }

    /// Evicts the unpinned rows that are not among the `max` most recent
    /// ones (newest timestamp first, older row first among equal
    /// timestamps).  A `max` too large for `i64` means no cap.
    pub fn evict_old(&mut self, max: usize)
        requires
            old(self)@.wf(),
        ensures
            final(self)@.wf(),
            final(self)@ == old(self)@.evict_old(max),
    {
        let ghost h = self.history@;
        let ghost keep = |r: ClipboardItem| survives_eviction(h, r, sql_limit(max));
        let unlimited = max as u64 > 0x7fff_ffff_ffff_ffffu64;
        let n = self.history.len();
        let mut out: Vec<ClipboardItem> = Vec::new();
        let mut j: usize = 0;
        while j < n
            invariant
                n == h.len(),
                h == self.history@,
                self@ == old(self)@,
                unlimited == (sql_limit(max) is None),
                j <= n,
                keep == (|r: ClipboardItem| survives_eviction(h, r, sql_limit(max))),
                out@ == h.take(j as int).filter(keep),
            decreases n - j,
        {
            proof {
                assert(h.take(j + 1) =~= h.take(j as int).push(h[j as int]));
                h.take(j as int).lemma_filter_push(h[j as int], keep);
            }
            let kept = self.history[j].pinned || unlimited || self.recency_rank_at(j) < max;
            assert(kept == keep(h[j as int]));
            if kept {
                out.push(self.history[j].clone());
            }
            j += 1;
        }
        assert(h.take(n as int) =~= h);
        self.history = out;
        proof {
            lemma_filter_keeps_history_wf(old(self)@, keep);
        }
    }

    /// The `limit` most recent history rows, newest first (older row first
    /// among equal timestamps).  A `limit` too large for `i64` means no
    /// limit.
    pub fn get_history(&self, limit: usize) -> (out: Vec<ClipboardItem>)
        requires
            self@.wf(),
        ensures
            is_history_listing(self@.history, out@, sql_limit(limit)),
    {
        let ghost h = self.history@;
        assert(self@.history == h);
        assert forall|a: int, b: int| 0 <= a < b < h.len() implies h[a].id < h[b].id by {
            assert(self@.history[a] == h[a] && self@.history[b] == h[b]);
        }
        let n = self.history.len();
        let mut out: Vec<ClipboardItem> = Vec::new();
        let mut i: usize = 0;
        while i < n
            invariant
                n == h.len(),
                h == self.history@,
                self@.wf(),
                forall|a: int, b: int| 0 <= a < b < n ==> h[a].id < h[b].id,
                i <= n,
                out@.len() == i,
                forall|a: int, b: int| 0 <= a < b < out@.len() ==> recency_before(out@[a], out@[b]),
                forall|a: int| 0 <= a < out@.len() ==> h.take(i as int).contains(#[trigger] out@[a]),
                forall|c: int| 0 <= c < i ==> out@.contains(#[trigger] h[c]),
            decreases n - i,
        {
            let x = self.history[i].clone();
            let mut p: usize = 0;
            while p < out.len() && row_more_recent(&out[p], &x)
                invariant
                    p <= out@.len(),
                    forall|q: int| 0 <= q < p ==> recency_before(out@[q], x),
                decreases out@.len() - p,
            {
                p += 1;
            }
            let ghost old_out = out@;
            proof {
                // every row already placed is an earlier row of `h`, so its
                // id is smaller than that of `x`
                assert forall|a: int| 0 <= a < old_out.len() implies #[trigger] old_out[a].id < x.id by {
                    assert(h.take(i as int).contains(old_out[a]));
                    let c = choose|c: int| 0 <= c < i && h.take(i as int)[c] == old_out[a];
                    assert(h[c] == old_out[a]);
                }
            }
            out.insert(p, x);
            proof {
                let o = out@;
                assert(o == old_out.insert(p as int, x));
                assert forall|a: int, b: int| 0 <= a < b < o.len() implies recency_before(o[a], o[b]) by {
                    if b < p {
                        assert(o[a] == old_out[a] && o[b] == old_out[b]);
                    } else if b == p {
                        assert(o[a] == old_out[a]);
                    } else if a < p {
                        assert(o[a] == old_out[a] && o[b] == old_out[b - 1]);
                    } else if a == p {
                        assert(o[a] == x);
                        assert(o[b] == old_out[b - 1]);
                        assert(!recency_before(old_out[p as int], x));
                        assert(old_out[p as int].id < x.id);
                        assert(recency_before(x, old_out[p as int]));
                        if b - 1 > p {
                            assert(recency_before(old_out[p as int], old_out[b - 1]));
                        }
                    } else {
                        assert(o[a] == old_out[a - 1] && o[b] == old_out[b - 1]);
                    }
                }
                assert forall|a: int| 0 <= a < o.len() implies h.take(i + 1).contains(#[trigger] o[a]) by {
                    if a == p {
                        assert(h.take(i + 1)[i as int] == x);
                    } else {
                        let a0 = if a < p { a } else { a - 1 };
                        assert(o[a] == old_out[a0]);
                        assert(h.take(i as int).contains(old_out[a0]));
                        let c = choose|c: int| 0 <= c < i && h.take(i as int)[c] == old_out[a0];
                        assert(h.take(i + 1)[c] == o[a]);
                    }
                }
                assert forall|c: int| 0 <= c < i + 1 implies o.contains(#[trigger] h[c]) by {
                    if c == i {
                        assert(o[p as int] == h[c]);
                    } else {
                        assert(old_out.contains(h[c]));
                        let k = choose|k: int| 0 <= k < old_out.len() && old_out[k] == h[c];
                        if k < p {
                            assert(o[k] == h[c]);
                        } else {
                            assert(o[k + 1] == h[c]);
                        }
                    }
                }
            }
            i += 1;
        }
        assert(h.take(n as int) =~= h);
        let m: usize = if (limit as u64) <= 0x7fff_ffff_ffff_ffffu64 && limit < n { limit } else { n };
        let ghost full = out@;
        out.truncate(m);
        proof {
            let o = out@;
            assert(o == full.subrange(0, m as int));
            assert forall|x: ClipboardItem| h.contains(x) && !o.contains(x) implies forall|i: int|
                0 <= i < o.len() ==> recency_before(#[trigger] o[i], x) by {
                let c = choose|c: int| 0 <= c < h.len() && h[c] == x;
                assert(full.contains(h[c]));
                let k = choose|k: int| 0 <= k < full.len() && full[k] == x;
                if k < m {
                    assert(o[k] == x);
                }
                assert forall|i: int| 0 <= i < o.len() implies recency_before(#[trigger] o[i], x) by {
                    assert(o[i] == full[i]);
                }
            }
            assert forall|i: int| 0 <= i < o.len() implies h.contains(#[trigger] o[i]) by {
                assert(o[i] == full[i]);
                assert(h.take(n as int).contains(full[i]));
            }
        }
        out
    }

    /// Inserts a shortcut created at `created`, returning its id.
    pub fn insert_shortcut_at(&mut self, name: &str, command: &str, created: i64) -> (r: Result<i64, StorageError>)
        requires
            old(self)@.wf(),
        ensures
            final(self)@.wf(),
            old(self)@.shortcut_inserted(final(self)@, r, name@, command@, created),
    {
        if self.shortcut_seq == i64::MAX {
            return Err(StorageError::Full);
        }
        let id = self.shortcut_seq + 1;
        let row = Shortcut {
            id: id,
            name: String::from_str(name),
            command: String::from_str(command),
            created: created,
        };
        let ghost old_view = self@;
        self.shortcuts.push(row);
        self.shortcut_seq = id;
        proof {
            let s2 = self@.shortcuts;
            assert(self@.history == old_view.history && self@.history_seq == old_view.history_seq);
            assert(self@.history_wf());
            assert(s2 == old_view.shortcuts.push(row));
            assert(s2.drop_last() =~= old_view.shortcuts);
            assert forall|i: int, j: int| 0 <= i < j < s2.len() implies s2[i].id < s2[j].id by {
                assert(s2[i] == old_view.shortcuts[i]);
                if j < s2.len() - 1 {
                    assert(s2[j] == old_view.shortcuts[j]);
                } else {
                    assert(old_view.shortcuts[i].id <= old_view.shortcut_seq);
                }
            }
            assert forall|i: int| 0 <= i < s2.len() implies 0 < #[trigger] s2[i].id <= self@.shortcut_seq by {
                if i < s2.len() - 1 {
                    assert(s2[i] == old_view.shortcuts[i]);
                }
            }
        }
        Ok(id)
    }

    /// Inserts a shortcut created now, returning its id.  When the clock
    /// reads before the Unix epoch nothing is inserted and the result is
    /// `ClockUnavailable`.
    pub fn insert_shortcut(&mut self, name: &str, command: &str) -> (r: Result<i64, StorageError>)
        requires
            old(self)@.wf(),
        ensures
            final(self)@.wf(),
            (r == Err::<i64, StorageError>(StorageError::ClockUnavailable) && final(self)@ == old(self)@)
                || exists|created: i64|
                created >= 0 && #[trigger] old(self)@.shortcut_inserted(final(self)@, r, name@, command@, created),
    {
        match unix_now() {
            Some(now) => self.insert_shortcut_at(name, command, now),
            None => Err(StorageError::ClockUnavailable),
        }
    }

    /// Deletes the shortcut with id `id` (no row: no change).
    pub fn delete_shortcut(&mut self, id: i64)
        requires
            old(self)@.wf(),
        ensures
            final(self)@.wf(),
            final(self)@ == old(self)@.delete_shortcut(id),
    {
        let ghost sh = self.shortcuts@;
        let ghost p = |r: Shortcut| r.id != id;
        let n = self.shortcuts.len();
        let mut out: Vec<Shortcut> = Vec::new();
        let mut j: usize = 0;
        while j < n
            invariant
                n == sh.len(),
                sh == self.shortcuts@,
                j <= n,
                p == (|r: Shortcut| r.id != id),
                out@ == sh.take(j as int).filter(p),
            decreases n - j,
        {
            proof {
                assert(sh.take(j + 1) =~= sh.take(j as int).push(sh[j as int]));
                sh.take(j as int).lemma_filter_push(sh[j as int], p);
            }
            if self.shortcuts[j].id != id {
                out.push(self.shortcuts[j].clone());
            }
            j += 1;
        }
        assert(sh.take(n as int) =~= sh);
        let ghost old_view = self@;
        assert(old_view.shortcuts == sh);
        assert forall|a: int, b: int| 0 <= a < b < sh.len() implies sh[a].id < sh[b].id by {
            assert(old_view.shortcuts[a] == sh[a] && old_view.shortcuts[b] == sh[b]);
        }
        assert forall|a: int| 0 <= a < sh.len() implies 0 < #[trigger] sh[a].id <= old_view.shortcut_seq by {
            assert(old_view.shortcuts[a] == sh[a]);
        }
        self.shortcuts = out;
        proof {
            assert(self@.history == old_view.history && self@.history_seq == old_view.history_seq);
            assert(self@.history_wf());
            let f = sh.filter(p);
            lemma_filter_pairs(sh, p, |a: Shortcut, b: Shortcut| a.id < b.id);
            assert forall|i: int| 0 <= i < f.len() implies 0 < #[trigger] f[i].id <= self@.shortcut_seq by {
                assert(f.contains(f[i]));
                sh.lemma_filter_contains_rev(p, f[i]);
            }
        }
    }

    /// All shortcuts, newest first (older row first among equal creation
    /// times).
    pub fn get_shortcuts(&self) -> (out: Vec<Shortcut>)
        requires
            self@.wf(),
        ensures
            is_shortcut_listing(self@.shortcuts, out@),
    {
        let ghost h = self.shortcuts@;
        assert(self@.shortcuts == h);
        assert forall|a: int, b: int| 0 <= a < b < h.len() implies h[a].id < h[b].id by {
            assert(self@.shortcuts[a] == h[a] && self@.shortcuts[b] == h[b]);
        }
        let n = self.shortcuts.len();
        let mut out: Vec<Shortcut> = Vec::new();
        let mut i: usize = 0;
        while i < n
            invariant
                n == h.len(),
                h == self.shortcuts@,
                forall|a: int, b: int| 0 <= a < b < n ==> h[a].id < h[b].id,
                i <= n,
                out@.len() == i,
                forall|a: int, b: int| 0 <= a < b < out@.len() ==> shortcut_before(out@[a], out@[b]),
                forall|a: int| 0 <= a < out@.len() ==> h.take(i as int).contains(#[trigger] out@[a]),
                forall|c: int| 0 <= c < i ==> out@.contains(#[trigger] h[c]),
            decreases n - i,
        {
            let x = self.shortcuts[i].clone();
            let mut p: usize = 0;
            while p < out.len() && (out[p].created > x.created || (out[p].created == x.created
                && out[p].id < x.id))
                invariant
                    p <= out@.len(),
                    forall|q: int| 0 <= q < p ==> shortcut_before(out@[q], x),
                decreases out@.len() - p,
            {
                p += 1;
            }
            let ghost old_out = out@;
            proof {
                assert forall|a: int| 0 <= a < old_out.len() implies #[trigger] old_out[a].id < x.id by {
                    assert(h.take(i as int).contains(old_out[a]));
                    let c = choose|c: int| 0 <= c < i && h.take(i as int)[c] == old_out[a];
                    assert(h[c] == old_out[a]);
                }
            }
            out.insert(p, x);
            proof {
                let o = out@;
                assert(o == old_out.insert(p as int, x));
                assert forall|a: int, b: int| 0 <= a < b < o.len() implies shortcut_before(o[a], o[b]) by {
                    if b < p {
                        assert(o[a] == old_out[a] && o[b] == old_out[b]);
                    } else if b == p {
                        assert(o[a] == old_out[a]);
                    } else if a < p {
                        assert(o[a] == old_out[a] && o[b] == old_out[b - 1]);
                    } else if a == p {
                        assert(o[a] == x);
                        assert(o[b] == old_out[b - 1]);
                        assert(!shortcut_before(old_out[p as int], x));
                        assert(old_out[p as int].id < x.id);
                        assert(shortcut_before(x, old_out[p as int]));
                        if b - 1 > p {
                            assert(shortcut_before(old_out[p as int], old_out[b - 1]));
                        }
                    } else {
                        assert(o[a] == old_out[a - 1] && o[b] == old_out[b - 1]);
                    }
                }
                assert forall|a: int| 0 <= a < o.len() implies h.take(i + 1).contains(#[trigger] o[a]) by {
                    if a == p {
                        assert(h.take(i + 1)[i as int] == x);
                    } else {
                        let a0 = if a < p { a } else { a - 1 };
                        assert(o[a] == old_out[a0]);
                        assert(h.take(i as int).contains(old_out[a0]));
                        let c = choose|c: int| 0 <= c < i && h.take(i as int)[c] == old_out[a0];
                        assert(h.take(i + 1)[c] == o[a]);
                    }
                }
                assert forall|c: int| 0 <= c < i + 1 implies o.contains(#[trigger] h[c]) by {
                    if c == i {
                        assert(o[p as int] == h[c]);
                    } else {
                        assert(old_out.contains(h[c]));
                        let k = choose|k: int| 0 <= k < old_out.len() && old_out[k] == h[c];
                        if k < p {
                            assert(o[k] == h[c]);
                        } else {
                            assert(o[k + 1] == h[c]);
                        }
                    }
                }
            }
            i += 1;
        }
        proof {
            assert(h.take(n as int) =~= h);
            let o = out@;
            assert forall|x: Shortcut| #[trigger] h.contains(x) <==> o.contains(x) by {
                if h.contains(x) {
                    let c = choose|c: int| 0 <= c < h.len() && h[c] == x;
                    assert(o.contains(h[c]));
                }
                if o.contains(x) {
                    let k = choose|k: int| 0 <= k < o.len() && o[k] == x;
                    assert(h.take(n as int).contains(o[k]));
                }
            }
        }
        out
    }

    /// A store holding the given rows and id counters, when they satisfy
    /// the store's invariant (ids ascending, positive and within the
    /// counters; distinct history contents); `None` otherwise.
    pub fn from_rows(
        history: Vec<ClipboardItem>,
        history_seq: i64,
        shortcuts: Vec<Shortcut>,
        shortcut_seq: i64,
    ) -> (r: Option<Storage>)
        ensures
            match r {
                Some(s) => s@ == (StorageView {
                    history: history@,
                    history_seq: history_seq,
                    shortcuts: shortcuts@,
                    shortcut_seq: shortcut_seq,
                }),
                None => !(StorageView {
                    history: history@,
                    history_seq: history_seq,
                    shortcuts: shortcuts@,
                    shortcut_seq: shortcut_seq,
                }).wf(),
            },
            r is Some ==> r->0@.wf(),
    {
        let ghost v = StorageView {
            history: history@,
            history_seq: history_seq,
            shortcuts: shortcuts@,
            shortcut_seq: shortcut_seq,
        };
        if history_seq < 0 || shortcut_seq < 0 {
            return None;
        }
        let h = &history;
        let n = h.len();
        let mut i: usize = 0;
        while i < n
            invariant
                n == h@.len(),
                i <= n,
                v.history == h@,
                v == (StorageView {
                    history: history@,
                    history_seq: history_seq,
                    shortcuts: shortcuts@,
                    shortcut_seq: shortcut_seq,
                }),
                forall|a: int, b: int| 0 <= a < b < i ==> h@[a].id < h@[b].id,
                forall|a: int| 0 <= a < i ==> 0 < #[trigger] h@[a].id <= history_seq,
                forall|a: int, b: int| 0 <= a < b < i ==> h@[a].content@ != h@[b].content@,
            decreases n - i,
        {
            assert(v.history[i as int] == h@[i as int]);
            if h[i].id <= 0 || h[i].id > history_seq {
                assert(!v.wf());
                return None;
            }
            if i > 0 && h[i - 1].id >= h[i].id {
                assert(v.history[i - 1] == h@[i - 1]);
                assert(!v.wf());
                return None;
            }
            let mut k: usize = 0;
            while k < i
                invariant
                    n == h@.len(),
                    k <= i < n,
                    v.history == h@,
                    v == (StorageView {
                        history: history@,
                        history_seq: history_seq,
                        shortcuts: shortcuts@,
                        shortcut_seq: shortcut_seq,
                    }),
                    forall|a: int| 0 <= a < k ==> h@[a].content@ != h@[i as int].content@,
                decreases i - k,
            {
                if h[k].content == h[i].content {
                    assert(v.history[k as int] == h@[k as int]);
                    assert(v.history[i as int] == h@[i as int]);
                    assert(!v.wf());
                    return None;
                }
                k += 1;
            }
            proof {
                assert forall|a: int, b: int| 0 <= a < b < i + 1 implies h@[a].id < h@[b].id by {
                    if b == i && a < i - 1 {
                        assert(h@[a].id < h@[i - 1].id);
                    }
                }
            }
            i += 1;
        }
        let sh = &shortcuts;
        let m = sh.len();
        let mut j: usize = 0;
        while j < m
            invariant
                m == sh@.len(),
                j <= m,
                v.shortcuts == sh@,
                v.history_wf(),
                v == (StorageView {
                    history: history@,
                    history_seq: history_seq,
                    shortcuts: shortcuts@,
                    shortcut_seq: shortcut_seq,
                }),
                forall|a: int, b: int| 0 <= a < b < j ==> sh@[a].id < sh@[b].id,
                forall|a: int| 0 <= a < j ==> 0 < #[trigger] sh@[a].id <= shortcut_seq,
            decreases m - j,
        {
            assert(v.shortcuts[j as int] == sh@[j as int]);
            if sh[j].id <= 0 || sh[j].id > shortcut_seq {
                assert(!v.wf());
                return None;
            }
            if j > 0 && sh[j - 1].id >= sh[j].id {
                assert(v.shortcuts[j - 1] == sh@[j - 1]);
                assert(!v.wf());
                return None;
            }
            proof {
                assert forall|a: int, b: int| 0 <= a < b < j + 1 implies sh@[a].id < sh@[b].id by {
                    if b == j && a < j - 1 {
                        assert(sh@[a].id < sh@[j - 1].id);
                    }
                }
            }
            j += 1;
        }
        Some(
            Storage {
                history: history,
                history_seq: history_seq,
                shortcuts: shortcuts,
                shortcut_seq: shortcut_seq,
            },
        )
    }

    /// The history rows, in ascending id order.
    pub fn history_rows(&self) -> (r: &Vec<ClipboardItem>)
        ensures
            r@ == self@.history,
    {
        &self.history
    }

    /// The shortcut rows, in ascending id order.
    pub fn shortcut_rows(&self) -> (r: &Vec<Shortcut>)
        ensures
            r@ == self@.shortcuts,
    {
        &self.shortcuts
    }

    /// The largest id ever allocated in the history table.
    pub fn history_seq(&self) -> (r: i64)
        ensures
            r == self@.history_seq,
    {
        self.history_seq
    }

    /// The largest id ever allocated in the shortcut table.
    pub fn shortcut_seq(&self) -> (r: i64)
        ensures
            r == self@.shortcut_seq,
    {
        self.shortcut_seq
    }

    /// Removes every unpinned history row, returning how many went.
    pub fn clear_history(&mut self) -> (deleted: usize)
        requires
            old(self)@.wf(),
        ensures
            final(self)@.wf(),
            final(self)@ == old(self)@.clear_history(),
            deleted == old(self)@.history.len() - final(self)@.history.len(),
    {
        let ghost h = self.history@;
        let ghost p = |r: ClipboardItem| r.pinned;
        let n = self.history.len();
        let mut out: Vec<ClipboardItem> = Vec::new();
        let mut j: usize = 0;
        while j < n
            invariant
                n == h.len(),
                h == self.history@,
                j <= n,
                p == (|r: ClipboardItem| r.pinned),
                out@ == h.take(j as int).filter(p),
                out@.len() <= j,
            decreases n - j,
        {
            proof {
                assert(h.take(j + 1) =~= h.take(j as int).push(h[j as int]));
                h.take(j as int).lemma_filter_push(h[j as int], p);
            }
            if self.history[j].pinned {
                out.push(self.history[j].clone());
            }
            j += 1;
        }
        assert(h.take(n as int) =~= h);
        let deleted = n - out.len();
        self.history = out;
        proof {
            lemma_filter_keeps_history_wf(old(self)@, p);
        }
        deleted
    }
}

/// Executable form of [`recency_before`].
fn row_more_recent(a: &ClipboardItem, b: &ClipboardItem) -> (r: bool)
    ensures
        r == recency_before(*a, *b),
{
    a.timestamp > b.timestamp || (a.timestamp == b.timestamp && a.id < b.id)
}

/// Changing history rows without touching their ids or contents keeps the
/// invariant.
pub proof fn lemma_same_keys_keeps_history_wf(s: StorageView, h2: Seq<ClipboardItem>)
    requires
        s.wf(),
        h2.len() == s.history.len(),
        forall|i: int|
            0 <= i < h2.len() ==> #[trigger] h2[i].id == s.history[i].id && h2[i].content@
                == s.history[i].content@,
    ensures
        (StorageView { history: h2, ..s }).wf(),
{
    assert forall|i: int, j: int| 0 <= i < j < h2.len() implies h2[i].id < h2[j].id
        && h2[i].content@ != h2[j].content@ by {
        assert(h2[i].id == s.history[i].id);
        assert(h2[j].id == s.history[j].id);
    }
    assert forall|i: int| 0 <= i < h2.len() implies 0 < #[trigger] h2[i].id <= s.history_seq by {
        assert(h2[i].id == s.history[i].id);
    }
}

/// Keeping only some history rows keeps the invariant.
pub proof fn lemma_filter_keeps_history_wf(s: StorageView, p: spec_fn(ClipboardItem) -> bool)
    requires
        s.wf(),
    ensures
        (StorageView { history: s.history.filter(p), ..s }).wf(),
{
    let h = s.history;
    let f = h.filter(p);
    lemma_filter_pairs(h, p, |a: ClipboardItem, b: ClipboardItem| a.id < b.id && a.content@ != b.content@);
    assert forall|i: int| 0 <= i < f.len() implies 0 < #[trigger] f[i].id <= s.history_seq by {
        assert(f.contains(f[i]));
        h.lemma_filter_contains_rev(p, f[i]);
    }
}

/// A relation that holds between every earlier and later element of `h`
/// still holds between those of a filtered `h`.
pub proof fn lemma_filter_pairs<A>(h: Seq<A>, p: spec_fn(A) -> bool, rel: spec_fn(A, A) -> bool)
    requires
        forall|a: int, b: int| 0 <= a < b < h.len() ==> rel(h[a], h[b]),
    ensures
        forall|i: int, j: int|
            0 <= i < j < h.filter(p).len() ==> rel(h.filter(p)[i], h.filter(p)[j]),
    decreases h.len(),
{
    reveal(Seq::filter);
    if h.len() > 0 {
        let t = h.drop_last();
        lemma_filter_pairs(t, p, rel);
        let f = h.filter(p);
        let ft = t.filter(p);
        assert forall|i: int, j: int| 0 <= i < j < f.len() implies rel(f[i], f[j]) by {
            if j < ft.len() {
                assert(f[i] == ft[i] && f[j] == ft[j]);
            } else {
                assert(f[i] == ft[i]);
                assert(ft.contains(ft[i]));
                t.lemma_filter_contains_rev(p, ft[i]);
                let a = choose|a: int| 0 <= a < t.len() && t[a] == ft[i];
                assert(h[a] == f[i]);
                assert(f[j] == h[h.len() - 1]);
            }
        }
    }
}

} // verus!
