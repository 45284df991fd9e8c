//! The list of recent dictations offered in the tray menu.
use vstd::prelude::*;
use std::collections::VecDeque;
use crate::text::{chars_of, decimal, decimal_chars, digit_char, digit_to_char, is_blank, is_blank_chars, push_all, string_from_chars};

verus! {

/// How many dictations the history keeps.
pub const HISTORY_LIMIT: usize = 10;

/// How many characters of a dictation its menu label shows.
pub const PREVIEW_CHARS: usize = 20;

/// A moment as a local clock shows it: seconds and nanoseconds since the Unix
/// epoch, and the offset of local time from UTC in seconds.
#[derive(Clone, Copy)]
pub struct Timestamp {
    pub unix_seconds: i64,
    pub nanos: u32,
    pub utc_offset_seconds: i32,
}

impl Timestamp {
    /// The ranges a local time can take: an offset of less than a day either
    /// way, and nanoseconds below two seconds (a leap second counts past one).
    pub open spec fn valid(self) -> bool {
        &&& -86400 < self.utc_offset_seconds < 86400
        &&& self.nanos < 2_000_000_000
    }
}

/// `chrono::Local::now()`, read as seconds, nanoseconds and UTC offset. The
/// clock and the time zone decide the values; only their ranges are stated.
#[verifier::external_body]
fn local_now() -> (t: Timestamp)
    ensures
        t.valid(),
{
    let now = chrono::Local::now();
    Timestamp {
        unix_seconds: now.timestamp(),
        nanos: now.timestamp_subsec_nanos(),
        utc_offset_seconds: now.offset().local_minus_utc(),
    }
}

/// Seconds since local midnight.
pub open spec fn day_seconds(t: Timestamp) -> int {
    (t.unix_seconds + t.utc_offset_seconds) % 86400
}

pub open spec fn two_digits(n: int) -> Seq<char> {
    seq![digit_char((n / 10) as nat), digit_char((n % 10) as nat)]
}

/// The local time of day as `HH:MM` (chrono's `%H:%M`).
pub open spec fn clock_text(t: Timestamp) -> Seq<char> {
    let s = day_seconds(t);
    two_digits(s / 3600) + seq![':'] + two_digits((s % 3600) / 60)
}

/// The local time of day of `t` as `HH:MM`.
pub fn clock(t: &Timestamp) -> (r: Vec<char>)
    ensures
        r@ == clock_text(*t),
{
    let local: i128 = t.unix_seconds as i128 + t.utc_offset_seconds as i128;
    let days: i128 = 140737488355328;
    let shifted: i128 = local + 86400 * days;
    proof {
        vstd::arithmetic::div_mod::lemma_mod_multiples_vanish(days as int, local as int, 86400);
        assert(86400 * days + local == shifted);
    }
    let day = (shifted as u128 % 86400) as u32;
    assert(day == day_seconds(*t));
    let h = (day / 3600) as usize;
    let m = ((day % 3600) / 60) as usize;
    let v = vec![digit_to_char(h / 10), digit_to_char(h % 10), ':', digit_to_char(m / 10), digit_to_char(m % 10)];
    assert(v@ =~= clock_text(*t));
    v
}

/// One dictation and when it was made.
pub struct HistoryEntry {
    pub text: String,
    pub timestamp: Timestamp,
}

/// The history after adding `e`: `e` first, then the earlier entries, with the
/// oldest dropped once there are more than `HISTORY_LIMIT`.
pub open spec fn push_history(es: Seq<HistoryEntry>, e: HistoryEntry) -> Seq<HistoryEntry> {
    let n = seq![e] + es;
    if n.len() > HISTORY_LIMIT {
        n.drop_last()
    } else {
        n
    }
}

/// Adding keeps a history of at most `HISTORY_LIMIT` entries, puts the new one
/// first, and keeps the earlier ones in order after it.
pub proof fn lemma_push_history(es: Seq<HistoryEntry>, e: HistoryEntry)
    requires
        es.len() <= HISTORY_LIMIT,
    ensures
        push_history(es, e).len() <= HISTORY_LIMIT,
        push_history(es, e).len() <= 10,
        push_history(es, e)[0] == e,
        push_history(es, e).len() == if es.len() < HISTORY_LIMIT { es.len() + 1 } else { HISTORY_LIMIT as nat },
        forall|k: int| 1 <= k < push_history(es, e).len() ==> #[trigger] push_history(es, e)[k] == es[k - 1],
{
}

pub open spec fn history_prefix() -> Seq<char> {
    seq!['h', 'i', 's', 't', 'o', 'r', 'y', '_']
}

/// The menu id of the `i`-th entry: `history_` and the index.
pub open spec fn history_id(i: nat) -> Seq<char> {
    history_prefix() + decimal(i)
}

/// The shown part of a dictation: the text, or its first `PREVIEW_CHARS`
/// characters and `...` when it is longer.
pub open spec fn preview_text(t: Seq<char>) -> Seq<char> {
    if t.len() > PREVIEW_CHARS {
        t.take(PREVIEW_CHARS as int) + seq!['.', '.', '.']
    } else {
        t
    }
}

/// A dictation of at most 20 characters is shown whole; a longer one is
/// shown as its first 20 characters followed by `...`.
pub proof fn lemma_preview_text(t: Seq<char>)
    ensures
        t.len() <= 20 ==> preview_text(t) == t,
        t.len() > 20 ==> preview_text(t).len() == 23 && preview_text(t).take(20) == t.take(20)
            && preview_text(t).skip(20) == seq!['.', '.', '.'],
{
    if t.len() > 20 {
        assert(preview_text(t).take(20) =~= t.take(20));
        assert(preview_text(t).skip(20) =~= seq!['.', '.', '.']);
    }
}

/// The menu label of an entry: `HH:MM - "preview"`.
pub open spec fn history_label(e: HistoryEntry) -> Seq<char> {
    clock_text(e.timestamp) + seq![' ', '-', ' ', '"'] + preview_text(e.text@) + seq!['"']
}

/// The recent dictations, newest first.
pub struct HistoryManager {
    pub entries: VecDeque<HistoryEntry>,
}

impl HistoryManager {
    /// The history as read back from disk: the saved entries, or none when
    /// nothing could be read.
    pub fn load(saved: Option<VecDeque<HistoryEntry>>) -> (h: Self)
        ensures
            match saved {
                Some(es) => h.entries@ == es@,
                None => h.entries@ == Seq::<HistoryEntry>::empty(),
            },
    {
        match saved {
            Some(es) => HistoryManager { entries: es },
            None => HistoryManager { entries: VecDeque::new() },
        }
    }

    /// Adds a dictation made at `timestamp` unless its text is blank; returns
    /// whether the history changed (and so is to be saved).
    pub fn add_entry_at(&mut self, text: String, timestamp: Timestamp) -> (changed: bool)
        ensures
            changed == !is_blank(text@),
            changed ==> final(self).entries@ == push_history(
                old(self).entries@,
                (HistoryEntry { text, timestamp }),
            ),
            !changed ==> final(self).entries@ == old(self).entries@,
    {
        let cs = chars_of(text.as_str());
        if is_blank_chars(cs.as_slice()) {
            return false;
        }
        let ghost e = HistoryEntry { text, timestamp };
        self.entries.push_front(HistoryEntry { text, timestamp });
        if self.entries.len() > HISTORY_LIMIT {
            let _ = self.entries.pop_back();
            assert(self.entries@ =~= push_history(old(self).entries@, e));
        }
        true
    }

    /// Adds a dictation made now unless its text is blank; returns whether the
    /// history changed. The time of the new entry is the local clock's.
    pub fn add_entry(&mut self, text: String) -> (changed: bool)
        ensures
            changed == !is_blank(text@),
            changed ==> exists|t: Timestamp|
                t.valid() && final(self).entries@ == push_history(
                    old(self).entries@,
                    (HistoryEntry { text, timestamp: t }),
                ),
            !changed ==> final(self).entries@ == old(self).entries@,
    {
        let cs = chars_of(text.as_str());
        if is_blank_chars(cs.as_slice()) {
            return false;
        }
        let now = local_now();
        self.add_entry_at(text, now)
    }

    /// The tray menu items of the history: for the `i`-th entry the id
    /// `history_i` and its label.
    pub fn menu_items(&self) -> (items: Vec<(String, String)>)
        ensures
            items@.len() == self.entries@.len(),
            forall|i: int|
                0 <= i < items@.len() ==> (#[trigger] items@[i]).0@ == history_id(i as nat)
                    && items@[i].1@ == history_label(self.entries@[i]),
    {
        let mut items: Vec<(String, String)> = Vec::new();
        let n = self.entries.len();
        let mut i: usize = 0;
        while i < n
            invariant
                n == self.entries@.len(),
                0 <= i <= n,
                items@.len() == i,
                forall|k: int|
                    0 <= k < i ==> (#[trigger] items@[k]).0@ == history_id(k as nat) && items@[k].1@
                        == history_label(self.entries@[k]),
            decreases n - i,
        {
            let entry = &self.entries[i];
            let mut id: Vec<char> = vec!['h', 'i', 's', 't', 'o', 'r', 'y', '_'];
            let digits = decimal_chars(i);
            push_all(&mut id, digits.as_slice());
            assert(id@ =~= history_id(i as nat));
            let mut label = clock(&entry.timestamp);
            label.push(' ');
            label.push('-');
            label.push(' ');
            label.push('"');
            let cs = chars_of(entry.text.as_str());
            if cs.len() > PREVIEW_CHARS {
                let mut j: usize = 0;
                while j < PREVIEW_CHARS
                    invariant
                        0 <= j <= PREVIEW_CHARS,
                        PREVIEW_CHARS < cs@.len(),
                        label@ == clock_text(entry.timestamp) + seq![' ', '-', ' ', '"'] + cs@.take(j as int),
                    decreases PREVIEW_CHARS - j,
                {
                    label.push(cs[j]);
                    j = j + 1;
                    assert(label@ =~= clock_text(entry.timestamp) + seq![' ', '-', ' ', '"'] + cs@.take(j as int));
                }
                label.push('.');
                label.push('.');
                label.push('.');
            } else {
                push_all(&mut label, cs.as_slice());
            }
            label.push('"');
            assert(label@ =~= history_label(*entry));
            let ghost before = items@;
            items.push((string_from_chars(id.as_slice()), string_from_chars(label.as_slice())));
            assert forall|k: int|
                0 <= k < i + 1 implies (#[trigger] items@[k]).0@ == history_id(k as nat) && items@[k].1@
                    == history_label(self.entries@[k]) by {
                if k < i {
                    assert(items@[k] == before[k]);
                }
            }
            i = i + 1;
        }
        items
    }
}

} // verus!
