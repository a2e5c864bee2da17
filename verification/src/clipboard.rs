//! The clipboard monitor's decisions and the messages that background
//! work sends to the window.

use vstd::prelude::*;
use vstd::utf8::encode_utf8;
use crate::history::{unix_now, ClipboardItem};
use crate::settings::{lowercase, matches_any, Settings};
use crate::storage::{is_history_listing, recency_before, recency_rank, sql_limit, survives_eviction, Storage, StorageError, StorageView};
use crate::storage_laws::{law_evict_caps_unpinned, lemma_insert_keeps_wf, lemma_listing_starts_with_most_recent, unpinned_count};
use crate::text::utf8_len_exceeds;

verus! {

/// Message types sent from background threads to the window's loop.
#[derive(Debug)]
pub enum AppMessage {
    /// A new (or refreshed) clipboard item was captured.
    NewClipboardItem(ClipboardItem),
    /// Toggle window visibility (from the global hotkey).
    ToggleWindow,
    /// A newer version is available and its download has started.
    NewVersionAvailable(String),
    /// Auto-update progress text for the status bar; empty hides the bar.
    UpdateStatus(String),
}

/// Polls the system clipboard and records new entries; the polling loop
/// itself runs in the application, which feeds each reading to
/// [`MonitorState::observe`] and each capture to [`record_capture`].
pub struct ClipboardMonitor;

/// Whether the monitor records clipboard text `text`, given the text it
/// recorded last: not empty, changed, no larger than the size cap in UTF-8
/// bytes, and not sensitive.
pub open spec fn should_capture(settings: Settings, last: Seq<char>, text: Seq<char>) -> bool {
    &&& text.len() > 0
    &&& text != last
    &&& encode_utf8(text).len() <= settings.max_entry_size
    &&& !matches_any(lowercase(text), settings.ignored_patterns@)
}

/// What the monitor remembers between readings.
pub struct MonitorState {
    /// The text recorded last.
    pub last_content: String,
}

impl MonitorState {
    /// The state before the first reading.
    pub fn new() -> (s: MonitorState)
        ensures
            s.last_content@ == Seq::<char>::empty(),
    {
        MonitorState { last_content: String::new() }
    }

    /// Takes one clipboard reading and returns whether to record it; a
    /// recorded text becomes the last content.
    pub fn observe(&mut self, settings: &Settings, text: &str) -> (capture: bool)
        ensures
            capture == should_capture(*settings, old(self).last_content@, text@),
            capture ==> final(self).last_content@ == text@,
            !capture ==> final(self).last_content@ == old(self).last_content@,
    {
        if text.is_empty() {
            return false;
        }
        let t = String::from_str(text);
        if t == self.last_content {
            return false;
        }
        if utf8_len_exceeds(text, settings.max_entry_size) {
            return false;
        }
        if settings.is_sensitive(text) {
            return false;
        }
        self.last_content = t;
        true
    }
}

/// The store after recording `content` captured at `timestamp`: the entry
/// is inserted unpinned and, when that succeeds, old entries are evicted
/// down to the history cap.
pub open spec fn recorded(s: StorageView, item: ClipboardItem, max_history: usize) -> StorageView {
    match s.insert_item(item).1 {
        Ok(_) => s.insert_item(item).0.evict_old(max_history),
        Err(_) => s,
    }
}

/// Stores a text captured at `timestamp` and enforces the history cap,
/// returning the item as stored (with the id that the insert reported).
pub fn record_capture_at(storage: &mut Storage, max_history: usize, content: String, timestamp: i64) -> (r: Result<ClipboardItem, StorageError>)
    requires
        old(storage)@.wf(),
    ensures
        final(storage)@.wf(),
        ({
            let item = ClipboardItem { id: 0, content: content, timestamp: timestamp, pinned: false };
            &&& final(storage)@ == recorded(old(storage)@, item, max_history)
            &&& match r {
                Ok(stored) => old(storage)@.insert_item(item).1 == Ok::<i64, StorageError>(stored.id)
                    && stored == ClipboardItem { id: stored.id, ..item },
                Err(e) => old(storage)@.insert_item(item).1 == Err::<i64, StorageError>(e),
            }
        }),
{
    let item = ClipboardItem { id: 0, content: content, timestamp: timestamp, pinned: false };
    match storage.insert_item(&item) {
        Ok(id) => {
            storage.evict_old(max_history);
            Ok(ClipboardItem { id: id, ..item })
        },
        Err(e) => Err(e),
    }
}

/// `r` and `after` are the outcome of recording `content` at `timestamp`
/// into `before`.
pub open spec fn capture_recorded(
    before: StorageView,
    after: StorageView,
    r: Result<ClipboardItem, StorageError>,
    content: String,
    timestamp: i64,
    max_history: usize,
) -> bool {
    let item = ClipboardItem { id: 0, content: content, timestamp: timestamp, pinned: false };
    &&& after == recorded(before, item, max_history)
    &&& match r {
        Ok(stored) => before.insert_item(item).1 == Ok::<i64, StorageError>(stored.id) && stored
            == ClipboardItem { id: stored.id, ..item },
        Err(e) => before.insert_item(item).1 == Err::<i64, StorageError>(e),
    }
}

/// Stores a text captured now and enforces the history cap, returning the
/// item as stored.  When the clock reads before the Unix epoch nothing is
/// stored and the result is `ClockUnavailable`.
pub fn record_capture(storage: &mut Storage, max_history: usize, content: String) -> (r: Result<ClipboardItem, StorageError>)
    requires
        old(storage)@.wf(),
    ensures
        final(storage)@.wf(),
        (r == Err::<ClipboardItem, StorageError>(StorageError::ClockUnavailable) && final(storage)@
            == old(storage)@) || exists|timestamp: i64|
            timestamp >= 0 && #[trigger] capture_recorded(
                old(storage)@,
                final(storage)@,
                r,
                content,
                timestamp,
                max_history,
            ),
{
    match unix_now() {
        Some(now) => {
            let r = record_capture_at(storage, max_history, content, now);
            assert(capture_recorded(old(storage)@, final(storage)@, r, content, now, max_history));
            r
        },
        None => Err(StorageError::ClockUnavailable),
    }
}

/// What the window does with a message.
#[derive(Debug)]
pub enum UiAction {
    /// Put the item at the top of the visible history.
    Prepend(ClipboardItem),
    /// Nothing to do now (a hidden window reloads when shown).
    Nothing,
    /// Show the window if hidden, hide it if shown.
    Toggle,
    /// Show the status bar with this text.
    ShowStatus(String),
    /// Hide the status bar.
    HideStatus,
}

/// The status text announcing that version `ver` is being downloaded.
pub open spec fn update_found_text(ver: Seq<char>) -> Seq<char> {
    "Update "@ + ver + " found — downloading…"@
}

/// What the window does with `msg`, given whether it is visible.
pub fn message_action(msg: AppMessage, window_visible: bool) -> (a: UiAction)
    ensures
        match msg {
            AppMessage::NewClipboardItem(item) => if window_visible {
                a == UiAction::Prepend(item)
            } else {
                a == UiAction::Nothing
            },
            AppMessage::ToggleWindow => a == UiAction::Toggle,
            AppMessage::NewVersionAvailable(ver) => a matches UiAction::ShowStatus(s) && s@
                == update_found_text(ver@),
            AppMessage::UpdateStatus(m) => if m@.len() == 0 {
                a == UiAction::HideStatus
            } else {
                a == UiAction::ShowStatus(m)
            },
        },
{
    match msg {
        AppMessage::NewClipboardItem(item) => {
            if window_visible {
                UiAction::Prepend(item)
            } else {
                UiAction::Nothing
            }
        },
        AppMessage::ToggleWindow => UiAction::Toggle,
        AppMessage::NewVersionAvailable(ver) => {
            let s = String::from_str("Update ");
            let s = s.concat(ver.as_str());
            UiAction::ShowStatus(s.concat(" found — downloading…"))
        },
        AppMessage::UpdateStatus(m) => {
            if m.as_str().is_empty() {
                UiAction::HideStatus
            } else {
                UiAction::ShowStatus(m)
            }
        },
    }
}

/// The monitor never records empty text, text larger than the size cap in
/// UTF-8 bytes, or text in whose lower-case form an ignored pattern occurs.
pub proof fn law_rejected_text_never_captured(settings: Settings, last: Seq<char>, text: Seq<char>)
    requires
        text.len() == 0 || encode_utf8(text).len() > settings.max_entry_size || matches_any(
            lowercase(text),
            settings.ignored_patterns@,
        ),
    ensures
        !should_capture(settings, last, text),
{
}

/// The monitor never records the same text twice in a row.
pub proof fn law_no_repeated_capture(settings: Settings, text: Seq<char>)
    ensures
        !should_capture(settings, text, text),
{
}

/// Recording a capture leaves at most `max_history` unpinned entries
/// whenever the insert succeeds: the history keeps the most recent entries
/// up to its cap, plus the pinned ones.
pub proof fn law_capture_respects_cap(s: StorageView, item: ClipboardItem, max_history: usize)
    requires
        s.wf(),
        max_history <= i64::MAX,
        s.insert_item(item).1 is Ok,
    ensures
        unpinned_count(recorded(s, item, max_history)) <= max_history,
{
    let s2 = s.insert_item(item).0;
    assert(s2.wf()) by {
        lemma_insert_keeps_wf(s, item);
    }
    law_evict_caps_unpinned(s2, max_history);
}

/// Copying again a text that is already stored, at a time later than every
/// stored entry, keeps the entry's id, and once the capture is recorded
/// (with a cap of one entry or more) the entry is at the top of the
/// history: every listing with room for a row starts with it.
pub proof fn law_recopy_leads_history(
    s: StorageView,
    item: ClipboardItem,
    max_history: usize,
    out: Seq<ClipboardItem>,
    limit: Option<nat>,
)
    requires
        s.wf(),
        s.has_content(item.content@),
        forall|i: int| 0 <= i < s.history.len() ==> #[trigger] s.history[i].timestamp < item.timestamp,
        max_history >= 1,
        is_history_listing(recorded(s, item, max_history).history, out, limit),
        limit != Some(0nat),
    ensures
        s.insert_item(item).1 == Ok::<i64, StorageError>(s.history[s.content_index(item.content@)].id),
        out.len() > 0,
        out[0].id == s.history[s.content_index(item.content@)].id,
        out[0].content@ == item.content@,
        out[0].timestamp == item.timestamp,
{
    let k = s.content_index(item.content@);
    let h2 = s.insert_item(item).0.history;
    assert(0 <= k < s.history.len());
    let x = h2[k];
    assert(x.content@ == item.content@ && x.timestamp == item.timestamp && x.id == s.history[k].id);
    assert forall|j: int| 0 <= j < h2.len() && j != k implies recency_before(x, #[trigger] h2[j]) by {
        if k < j {
            assert(s.history[k].content@ != s.history[j].content@);
        } else {
            assert(s.history[j].content@ != s.history[k].content@);
        }
        assert(h2[j] == s.history[j]);
    }
    // nothing in h2 is more recent than x, so eviction keeps it
    let before_x = |y: ClipboardItem| recency_before(y, x);
    if h2.filter(before_x).len() > 0 {
        let f = h2.filter(before_x);
        h2.lemma_filter_pred(before_x, 0);
        assert(f.contains(f[0]));
        h2.lemma_filter_contains_rev(before_x, f[0]);
        let j = choose|j: int| 0 <= j < h2.len() && h2[j] == f[0];
        if j != k {
            assert(recency_before(x, h2[j]));
        }
        assert(false);
    }
    assert(recency_rank(h2, x) == 0);
    let keep = |r: ClipboardItem| survives_eviction(h2, r, sql_limit(max_history));
    assert(keep(x));
    h2.lemma_filter_contains(keep, k);
    let h3 = h2.filter(keep);
    assert(recorded(s, item, max_history).history == h3);
    assert forall|y: ClipboardItem| h3.contains(y) && y != x implies recency_before(x, y) by {
        h2.lemma_filter_contains_rev(keep, y);
        let j = choose|j: int| 0 <= j < h2.len() && h2[j] == y;
        assert(j != k);
    }
    lemma_listing_starts_with_most_recent(h3, out, limit, x);
}

} // verus!
