//! A single clipboard history entry.

use vstd::prelude::*;
use crate::numbers::{decimal, format_u64, push_signed, signed_decimal};
use crate::text::{chars_of, push_char, string_of_range, trim, trim_bounds};

verus! {

/// A single entry in the clipboard history.
#[derive(Debug)]
pub struct ClipboardItem {
    /// Row id assigned by the store (0 before the first insert).
    pub id: i64,
    /// The clipboard text.
    pub content: String,
    /// Unix timestamp (seconds since the epoch) of the capture.
    pub timestamp: i64,
    /// A pinned entry is never evicted nor cleared.
    pub pinned: bool,
}

impl Clone for ClipboardItem {
    fn clone(&self) -> (r: Self)
        ensures
            r == *self,
    {
        ClipboardItem {
            id: self.id,
            content: self.content.clone(),
            timestamp: self.timestamp,
            pinned: self.pinned,
        }
    }
}

/// The preview of a text: trimmed, and when longer than 80 characters its
/// first 79 characters followed by an ellipsis.
pub open spec fn preview_text(s: Seq<char>) -> Seq<char> {
    let t = trim(s);
    if t.len() > 80 {
        t.take(79).push('…')
    } else {
        t
    }
}

/// A preview is never longer than 80 characters.
pub proof fn law_preview_at_most_80(s: Seq<char>)
    ensures
        preview_text(s).len() <= 80,
{
}

/// `a / b` rounded toward zero, as Rust's integer division is.
pub open spec fn div_trunc(a: int, b: int) -> int {
    if a >= 0 {
        a / b
    } else {
        -((-a) / b)
    }
}

/// The relative-time label for an entry captured `delta` seconds ago.
pub open spec fn relative_label(delta: int) -> Seq<char> {
    if 0 <= delta <= 59 {
        "just now"@
    } else if 60 <= delta <= 3599 {
        decimal((delta / 60) as nat) + " min ago"@
    } else if 3600 <= delta <= 86399 {
        decimal((delta / 3600) as nat) + " hr ago"@
    } else {
        signed_decimal(div_trunc(delta, 86400)) + " days ago"@
    }
}

/// Every relative-time label says something: the empty label of
/// [`ClipboardItem::relative_time`] only ever stands for an unreadable
/// clock or a difference that does not fit in an `i64`.
pub proof fn law_relative_label_never_empty(delta: int)
    ensures
        relative_label(delta).len() > 0,
{
    reveal_strlit("just now");
    reveal_strlit(" min ago");
    reveal_strlit(" hr ago");
    reveal_strlit(" days ago");
}

impl ClipboardItem {
    /// `label` is what `relative_time` shows when the clock reads `now`:
    /// the relative-time label when the difference fits in an `i64`, and
    /// the empty text otherwise.
    pub open spec fn labelled_at(self, now: i64, label: Seq<char>) -> bool {
        if i64::MIN <= now - self.timestamp <= i64::MAX {
            label == relative_label(now - self.timestamp)
        } else {
            label.len() == 0
        }
    }

    /// `label` is what `relative_time` shows for the clock reading `now`:
    /// the label at that time for a reading of `Some(t)` (never before the
    /// epoch), and the empty text when the clock could not be read.
    pub open spec fn labelled_by(self, now: Option<i64>, label: Seq<char>) -> bool {
        match now {
            Some(t) => t >= 0 && self.labelled_at(t, label),
            None => label.len() == 0,
        }
    }

    /// A display-friendly preview of the content: trimmed, at most 80
    /// characters, with an ellipsis where it was cut.
    pub fn preview(&self) -> (s: String)
        ensures
            s@ == preview_text(self.content@),
    {
        let v = chars_of(self.content.as_str());
        let (i, j) = trim_bounds(&v);
        if j - i > 80 {
            let mut s = string_of_range(&v, i, i + 79);
            push_char(&mut s, '…');
            assert(v@.subrange(i as int, i + 79) =~= v@.subrange(i as int, j as int).take(79));
            s
        } else {
            string_of_range(&v, i, j)
        }
    }

    /// The relative-time label for this entry as seen at Unix time `now`.
    pub fn relative_time_at(&self, now: i64) -> (s: String)
        requires
            i64::MIN <= now - self.timestamp <= i64::MAX,
        ensures
            s@ == relative_label(now - self.timestamp),
    {
        let delta: i64 = now - self.timestamp;
        if 0 <= delta && delta <= 59 {
            String::from_str("just now")
        } else if 60 <= delta && delta <= 3599 {
            let s = format_u64((delta / 60) as u64);
            s.concat(" min ago")
        } else if 3600 <= delta && delta <= 86399 {
            let s = format_u64((delta / 3600) as u64);
            s.concat(" hr ago")
        } else {
            let days: i64 = if delta >= 0 {
                delta / 86400
            } else {
                (0i128 - ((0i128 - delta as i128) / 86400)) as i64
            };
            let mut s = String::new();
            push_signed(&mut s, days);
            assert(s@ =~= signed_decimal(div_trunc(delta as int, 86400)));
            s.concat(" days ago")
        }
    }

    /// A human-readable relative time ("just now", "2 min ago", ...)
    /// measured against the clock.  The label is empty when the clock reads
    /// before the Unix epoch, or when the difference between the clock and
    /// the timestamp does not fit in an `i64`.
    pub fn relative_time(&self) -> (s: String)
        ensures
            exists|now: Option<i64>| #[trigger] self.labelled_by(now, s@),
    {
        let now = unix_now();
        match now {
            Some(t) => match t.checked_sub(self.timestamp) {
                Some(_) => {
                    let s = self.relative_time_at(t);
                    assert(self.labelled_by(now, s@));
                    s
                },
                None => {
                    let s = String::new();
                    assert(self.labelled_by(now, s@));
                    s
                },
            },
            None => {
                let s = String::new();
                assert(self.labelled_by(now, s@));
                s
            },
        }
    }
}

/// Whole seconds from the Unix epoch to the system clock's reading
/// (`SystemTime::now()` measured with `duration_since(UNIX_EPOCH)`), or
/// `None` when the clock reads before the epoch.  Nothing is stated of the
/// value: it is the clock's reading.
#[verifier::external_body]
fn clock_seconds() -> Option<u64> {
    match std::time::SystemTime::now().duration_since(std::time::UNIX_EPOCH) {
        Ok(d) => Some(d.as_secs()),
        Err(_) => None,
    }
}

/// The current Unix time in seconds, or `None` when the clock reads before
/// the epoch or beyond what an `i64` holds.
pub(crate) fn unix_now() -> (r: Option<i64>)
    ensures
        r matches Some(t) ==> t >= 0,
{
    match clock_seconds() {
        Some(secs) => {
            if secs <= 0x7fff_ffff_ffff_ffffu64 {
                Some(secs as i64)
            } else {
                None
            }
        },
        None => None,
    }
}

} // verus!
