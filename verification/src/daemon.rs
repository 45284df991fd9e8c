//! The decisions of the dictation daemon: how a dictation's text is gathered
//! and typed, what the tray shows, what a menu click does, when to reconnect,
//! and when the text around the cursor may be read.
use vstd::prelude::*;
use crate::history::{history_id, history_prefix, HistoryEntry, HistoryManager};
use crate::text::{
    chars_equal, chars_of, has_prefix, parse_usize, parse_usize_chars, starts_with_chars,
    string_from_chars, suffix_from, lemma_parse_decimal, decimal,
};
use crate::traits::TranscriptionResult;

verus! {

broadcast use vstd::string::group_string_axioms;

/// The characters that, just before the cursor, mean a dictation is typed
/// without a leading space: whitespace, opening brackets, quotes, characters
/// that start or join a token, and currency signs.
pub open spec fn no_space_before_seq() -> Seq<char> {
    seq![
        ' ', '\n', '\t',
        '(', '[', '{', '<',
        '"', '\'', '`',
        '-', '@', '#', '/', '\\',
        '$', '\u{a3}', '\u{20ac}',
    ]
}

/// Characters that, when immediately before the cursor, mean no space is
/// prepended to the dictated text.
pub fn no_space_before_chars() -> (r: &'static [char])
    ensures
        r@ == no_space_before_seq(),
{
    let r: &'static [char] = &[
        ' ', '\n', '\t',
        '(', '[', '{', '<',
        '"', '\'', '`',
        '-', '@', '#', '/', '\\',
        '$', '\u{a3}', '\u{20ac}',
    ];
    assert(r@ =~= no_space_before_seq());
    r
}

/// The text typed for a dictation: with one leading space when the text before
/// the cursor is known, non-empty, and does not end in one of
/// `no_space_before_seq`.
pub open spec fn typed_text(full: Seq<char>, context: Option<Seq<char>>) -> Seq<char> {
    match context {
        Some(c) => if c.len() > 0 && !no_space_before_seq().contains(c.last()) {
            seq![' '] + full
        } else {
            full
        },
        None => full,
    }
}

/// Dictating with the text before the cursor known: right after whitespace
/// (a space, a line break or a tab), an opening bracket, a quote, a character
/// that starts or joins a token, or a currency sign, the text is typed as it
/// is; right after any other character it is typed after one space. With no
/// text before the cursor known, or an empty one, it is typed as it is.
pub proof fn lemma_leading_space(full: Seq<char>, context: Seq<char>)
    ensures
        context.len() > 0 && ({
            let c = context.last();
            ||| c == ' ' || c == '\n' || c == '\t'
            ||| c == '(' || c == '[' || c == '{' || c == '<'
            ||| c == '"' || c == '\'' || c == '`'
            ||| c == '-' || c == '@' || c == '#' || c == '/' || c == '\\'
            ||| c == '$' || c == '\u{a3}' || c == '\u{20ac}'
        }) ==> typed_text(full, Some(context)) == full,
        context.len() > 0 && !({
            let c = context.last();
            ||| c == ' ' || c == '\n' || c == '\t'
            ||| c == '(' || c == '[' || c == '{' || c == '<'
            ||| c == '"' || c == '\'' || c == '`'
            ||| c == '-' || c == '@' || c == '#' || c == '/' || c == '\\'
            ||| c == '$' || c == '\u{a3}' || c == '\u{20ac}'
        }) ==> typed_text(full, Some(context)) == seq![' '] + full,
        context.len() == 0 ==> typed_text(full, Some(context)) == full,
        typed_text(full, None) == full,
{
    let set = no_space_before_seq();
    if context.len() > 0 {
        let c = context.last();
        if set.contains(c) {
            let k = choose|k: int| 0 <= k < set.len() && set[k] == c;
            assert(0 <= k < 18);
        } else {
            assert(set[0] == ' ' && set[1] == '\n' && set[2] == '\t');
            assert(set[3] == '(' && set[4] == '[' && set[5] == '{' && set[6] == '<');
            assert(set[7] == '"' && set[8] == '\'' && set[9] == '`');
            assert(set[10] == '-' && set[11] == '@' && set[12] == '#' && set[13] == '/' && set[14] == '\\');
            assert(set[15] == '$' && set[16] == '\u{a3}' && set[17] == '\u{20ac}');
        }
    }
}

/// The text gathered so far after one more transcription result: a final
/// result replaces it, a partial one replaces it unless empty, and an error
/// leaves it.
pub open spec fn next_full_text(current: Seq<char>, result: Result<TranscriptionResult, String>) -> Seq<char> {
    match result {
        Ok(r) => if r.is_final || r.text@.len() > 0 {
            r.text@
        } else {
            current
        },
        Err(_) => current,
    }
}

/// The text gathered from a whole sequence of transcription results.
pub open spec fn gathered_text(start: Seq<char>, results: Seq<Result<TranscriptionResult, String>>) -> Seq<char>
    decreases results.len(),
{
    if results.len() == 0 {
        start
    } else {
        next_full_text(gathered_text(start, results.drop_last()), results.last())
    }
}

/// The gathered text is the text of the last result that is final or
/// non-empty, and the starting text when there is none.
pub proof fn lemma_gathered_is_last_kept(start: Seq<char>, results: Seq<Result<TranscriptionResult, String>>, k: int)
    requires
        0 <= k < results.len(),
        results[k] matches Ok(r) && (r.is_final || r.text@.len() > 0),
        forall|j: int|
            k < j < results.len() ==> !(#[trigger] results[j] matches Ok(r) && (r.is_final || r.text@.len() > 0)),
    ensures
        gathered_text(start, results) == results[k]->Ok_0.text@,
    decreases results.len(),
{
    if k < results.len() - 1 {
        let prefix = results.drop_last();
        assert forall|j: int| k < j < prefix.len() implies !(#[trigger] prefix[j] matches Ok(r) && (r.is_final
            || r.text@.len() > 0)) by {
            assert(prefix[j] == results[j]);
        }
        lemma_gathered_is_last_kept(start, prefix, k);
        assert(!(results[results.len() - 1] matches Ok(r) && (r.is_final || r.text@.len() > 0)));
    }
}

/// The icon shown while recording: brighter while speech is heard.
pub open spec fn speaking_icon(speaking: bool) -> Seq<char> {
    if speaking {
        "audio-input-microphone-high-symbolic"@
    } else {
        "media-record-symbolic"@
    }
}

/// The tray colour while recording: bright green while speech is heard, the
/// configured recording colour otherwise.
pub open spec fn speaking_color(speaking: bool, recording_color: Seq<char>) -> Seq<char> {
    if speaking {
        "#00FF00"@
    } else {
        recording_color
    }
}

/// The text-related state of one dictation while it records.
pub struct DictationSession {
    full_text: String,
    is_speaking: bool,
    cursor_context: Option<String>,
    recording_color: String,
}

impl DictationSession {
    pub closed spec fn full_text_view(&self) -> Seq<char> {
        self.full_text@
    }

    pub closed spec fn is_speaking_view(&self) -> bool {
        self.is_speaking
    }

    pub closed spec fn context_view(&self) -> Option<Seq<char>> {
        match self.cursor_context {
            Some(c) => Some(c@),
            None => None,
        }
    }

    pub closed spec fn color_view(&self) -> Seq<char> {
        self.recording_color@
    }

    /// A dictation that starts with no text and no speech heard, with the text
    /// read before the cursor (if any) and the configured recording colour.
    pub fn new(cursor_context: Option<String>, recording_color: String) -> (s: Self)
        ensures
            s.full_text_view() == Seq::<char>::empty(),
            !s.is_speaking_view(),
            s.context_view() == match cursor_context {
                Some(c) => Some(c@),
                None => None::<Seq<char>>,
            },
            s.color_view() == recording_color@,
    {
        DictationSession { full_text: String::new(), is_speaking: false, cursor_context, recording_color }
    }

    /// Takes one transcription result into the gathered text.
    pub fn on_transcription(&mut self, result: Result<TranscriptionResult, String>)
        ensures
            final(self).full_text_view() == next_full_text(old(self).full_text_view(), result),
            final(self).is_speaking_view() == old(self).is_speaking_view(),
            final(self).context_view() == old(self).context_view(),
            final(self).color_view() == old(self).color_view(),
    {
        match result {
            Ok(r) => {
                if r.is_final || !r.text.as_str().is_empty() {
                    self.full_text = r.text;
                }
            },
            Err(_) => {},
        }
    }

    /// Records whether speech is heard now; when that changed, returns the icon
    /// and colour the tray is to show.
    pub fn on_speaking(&mut self, speaking: bool) -> (update: Option<(String, String)>)
        ensures
            final(self).is_speaking_view() == speaking,
            final(self).full_text_view() == old(self).full_text_view(),
            final(self).context_view() == old(self).context_view(),
            final(self).color_view() == old(self).color_view(),
            speaking == old(self).is_speaking_view() ==> update is None,
            speaking != old(self).is_speaking_view() ==> (update matches Some(u) && u.0@
                == speaking_icon(speaking) && u.1@ == speaking_color(speaking, old(self).color_view())),
    {
        if speaking == self.is_speaking {
            return None;
        }
        self.is_speaking = speaking;
        if speaking {
            Some(("audio-input-microphone-high-symbolic".to_string(), "#00FF00".to_string()))
        } else {
            Some(("media-record-symbolic".to_string(), self.recording_color.clone()))
        }
    }

    /// The text gathered so far.
    pub fn full_text(&self) -> (t: String)
        ensures
            t@ == self.full_text_view(),
    {
        self.full_text.clone()
    }

    /// What to type when the dictation ends: nothing when no text was
    /// gathered, else the text with a leading space as `typed_text` says.
    pub fn text_to_type(&self) -> (t: Option<String>)
        ensures
            self.full_text_view().len() == 0 ==> t is None,
            self.full_text_view().len() > 0 ==> (t matches Some(s) && s@ == typed_text(
                self.full_text_view(),
                self.context_view(),
            )),
    {
        if self.full_text.as_str().is_empty() {
            return None;
        }
        let context = match &self.cursor_context {
            Some(c) => Some(c.as_str()),
            None => None,
        };
        Some(text_to_type(self.full_text.as_str(), context))
    }
}

/// The dictated text as it is typed (see `typed_text`).
pub fn text_to_type(full_text: &str, cursor_context: Option<&str>) -> (t: String)
    ensures
        t@ == typed_text(
            full_text@,
            match cursor_context {
                Some(c) => Some(c@),
                None => None,
            },
        ),
{
    let full = chars_of(full_text);
    let space = match cursor_context {
        Some(c) => {
            let cs = chars_of(c);
            if cs.len() == 0 {
                false
            } else {
                let last = cs[cs.len() - 1];
                let set = no_space_before_chars();
                let mut found = false;
                let mut i: usize = 0;
                while i < set.len()
                    invariant
                        0 <= i <= set@.len(),
                        set@ == no_space_before_seq(),
                        found == (exists|k: int| 0 <= k < i && set@[k] == last),
                    decreases set@.len() - i,
                {
                    if set[i] == last {
                        found = true;
                    }
                    i = i + 1;
                }
                assert(found == no_space_before_seq().contains(last));
                !found
            }
        },
        None => false,
    };
    if space {
        let mut out: Vec<char> = vec![' '];
        crate::text::push_all(&mut out, full.as_slice());
        string_from_chars(out.as_slice())
    } else {
        string_from_chars(full.as_slice())
    }
}

/// How long typing still waits after transcription, in nanoseconds: the part
/// of the typing delay that has not yet passed since recording stopped.
pub fn remaining_delay(elapsed_nanos: u128, delay_nanos: u128) -> (r: Option<u128>)
    ensures
        elapsed_nanos < delay_nanos ==> r == Some((delay_nanos - elapsed_nanos) as u128),
        elapsed_nanos >= delay_nanos ==> r is None,
{
    if elapsed_nanos < delay_nanos {
        Some(delay_nanos - elapsed_nanos)
    } else {
        None
    }
}

/// The first delay between attempts to reach the extension, in seconds.
pub const INITIAL_RETRY_SECS: u64 = 2;

/// The longest delay between attempts, in seconds; reaching it means the bus
/// connection itself is made again.
pub const MAX_RETRY_SECS: u64 = 30;

/// After a failed attempt: the next delay (doubled, at most `MAX_RETRY_SECS`)
/// and whether to make the bus connection again (the delay reached the most).
pub fn next_retry_delay(delay_secs: u64) -> (r: (u64, bool))
    requires
        delay_secs <= u64::MAX / 2,
    ensures
        r.0 == if 2 * delay_secs < MAX_RETRY_SECS { 2 * delay_secs } else { MAX_RETRY_SECS as int },
        r.1 == (r.0 >= MAX_RETRY_SECS),
{
    let doubled = delay_secs * 2;
    let next = if doubled < MAX_RETRY_SECS {
        doubled
    } else {
        MAX_RETRY_SECS
    };
    (next, next >= MAX_RETRY_SECS)
}

/// The delay never exceeds `MAX_RETRY_SECS`, and from the first delay the
/// connection is made again at the fourth failure in a row.
pub proof fn lemma_retry_schedule(delay_secs: int)
    requires
        0 <= delay_secs <= MAX_RETRY_SECS,
    ensures
        (if 2 * delay_secs < MAX_RETRY_SECS { 2 * delay_secs } else { MAX_RETRY_SECS as int })
            <= MAX_RETRY_SECS,
        delay_secs > 0 ==> (if 2 * delay_secs < MAX_RETRY_SECS { 2 * delay_secs } else { MAX_RETRY_SECS as int }) > delay_secs
            || delay_secs == MAX_RETRY_SECS,
{
}

pub open spec fn settings_id() -> Seq<char> {
    seq!['s', 'e', 't', 't', 'i', 'n', 'g', 's']
}

/// What a click on a tray menu item does.
pub enum MenuAction {
    /// Open the settings window.
    OpenSettings,
    /// Put this earlier dictation on the clipboard.
    CopyToClipboard(String),
    /// Nothing.
    Ignore,
}

/// The action for a menu id: `settings` opens the settings; `history_<i>`
/// with `i` a valid index copies that dictation; anything else does nothing.
pub open spec fn menu_action_of(id: Seq<char>, entries: Seq<HistoryEntry>) -> MenuAction {
    if id == settings_id() {
        MenuAction::OpenSettings
    } else if has_prefix(id, history_prefix()) {
        match parse_usize(id.skip(history_prefix().len() as int)) {
            Some(i) => if i < entries.len() {
                MenuAction::CopyToClipboard(entries[i as int].text)
            } else {
                MenuAction::Ignore
            },
            None => MenuAction::Ignore,
        }
    } else {
        MenuAction::Ignore
    }
}

/// The action for a clicked menu item (see `menu_action_of`).
pub fn menu_action(id: &str, history: &HistoryManager) -> (a: MenuAction)
    ensures
        a == menu_action_of(id@, history.entries@),
{
    let cs = chars_of(id);
    let settings: Vec<char> = vec!['s', 'e', 't', 't', 'i', 'n', 'g', 's'];
    assert(settings@ =~= settings_id());
    if chars_equal(cs.as_slice(), settings.as_slice()) {
        return MenuAction::OpenSettings;
    }
    let prefix: Vec<char> = vec!['h', 'i', 's', 't', 'o', 'r', 'y', '_'];
    assert(prefix@ =~= history_prefix());
    if !starts_with_chars(cs.as_slice(), prefix.as_slice()) {
        return MenuAction::Ignore;
    }
    let rest = suffix_from(cs.as_slice(), prefix.len());
    match parse_usize_chars(rest.as_slice()) {
        Some(index) => {
            if index < history.entries.len() {
                MenuAction::CopyToClipboard(history.entries[index].text.clone())
            } else {
                MenuAction::Ignore
            }
        },
        None => MenuAction::Ignore,
    }
}

/// The tray menu: the settings item, then the history items.
pub fn daemon_menu_items(history: &HistoryManager) -> (items: Vec<(String, String)>)
    ensures
        items@.len() == history.entries@.len() + 1,
        items@[0].0@ == settings_id(),
        items@[0].1@ == "Settings"@,
        forall|i: int|
            0 <= i < history.entries@.len() ==> (#[trigger] items@[i + 1]).0@ == history_id(i as nat)
                && items@[i + 1].1@ == crate::history::history_label(history.entries@[i]),
{
    let settings: Vec<char> = vec!['s', 'e', 't', 't', 'i', 'n', 'g', 's'];
    assert(settings@ =~= settings_id());
    let mut items: Vec<(String, String)> = Vec::new();
    items.push((string_from_chars(settings.as_slice()), "Settings".to_string()));
    let rest = history.menu_items();
    let mut i: usize = 0;
    while i < rest.len()
        invariant
            0 <= i <= rest@.len(),
            rest@.len() == history.entries@.len(),
            items@.len() == i + 1,
            items@[0].0@ == settings_id(),
            items@[0].1@ == "Settings"@,
            forall|k: int| 0 <= k < i ==> #[trigger] items@[k + 1] == rest@[k],
        decreases rest@.len() - i,
    {
        let (a, b) = &rest[i];
        items.push((a.clone(), b.clone()));
        i = i + 1;
    }
    items
}

/// Every item of the tray menu does what it shows: the first opens the
/// settings, and the item of the `i`-th dictation copies that dictation.
pub proof fn lemma_menu_items_round_trip(entries: Seq<HistoryEntry>, i: nat)
    requires
        i < entries.len(),
        entries.len() <= usize::MAX,
    ensures
        menu_action_of(settings_id(), entries) == MenuAction::OpenSettings,
        menu_action_of(history_id(i), entries) == MenuAction::CopyToClipboard(entries[i as int].text),
{
    let id = history_id(i);
    lemma_parse_decimal(i);
    assert(id[0] == 'h');
    assert(settings_id()[0] == 's');
    assert(id != settings_id());
    assert(id.take(history_prefix().len() as int) =~= history_prefix());
    assert(id.skip(history_prefix().len() as int) =~= decimal(i));
}

/// Where the dictation cycle stands.
#[derive(PartialEq, Eq, Structural, Clone, Copy)]
pub enum CyclePhase {
    /// No dictation is running.
    Idle,
    /// A dictation records.
    Recording,
    /// The recording stopped and its transcription is being finished.
    Transcribing,
}

/// The tray icon of each phase.
pub open spec fn phase_icon(p: CyclePhase) -> Seq<char> {
    match p {
        CyclePhase::Idle => "audio-input-microphone-symbolic"@,
        CyclePhase::Recording => "media-record-symbolic"@,
        CyclePhase::Transcribing => "emblem-synchronizing-symbolic"@,
    }
}

/// The state name the tray is told for each phase.
pub open spec fn phase_status(p: CyclePhase) -> Seq<char> {
    match p {
        CyclePhase::Idle => "idle"@,
        CyclePhase::Recording => "recording"@,
        CyclePhase::Transcribing => "transcribing"@,
    }
}

/// The colour the tray shows in each phase: the configured recording and
/// transcribing colours, and none when idle.
pub open spec fn phase_color(p: CyclePhase, recording_color: Seq<char>, transcribing_color: Seq<char>) -> Seq<char> {
    match p {
        CyclePhase::Idle => Seq::empty(),
        CyclePhase::Recording => recording_color,
        CyclePhase::Transcribing => transcribing_color,
    }
}

/// The tray is told each phase by a state name of its own, `idle`,
/// `recording` or `transcribing`, and shows a different icon in each, so it
/// never mistakes one phase for another; it shows the configured recording
/// colour while recording, the transcribing colour while transcribing, and
/// none when idle.
pub proof fn lemma_tray_phases(p: CyclePhase, q: CyclePhase, recording_color: Seq<char>, transcribing_color: Seq<char>)
    ensures
        phase_status(CyclePhase::Idle) == "idle"@,
        phase_status(CyclePhase::Recording) == "recording"@,
        phase_status(CyclePhase::Transcribing) == "transcribing"@,
        p != q ==> phase_status(p) != phase_status(q),
        p != q ==> phase_icon(p) != phase_icon(q),
        phase_color(CyclePhase::Idle, recording_color, transcribing_color).len() == 0,
        phase_color(CyclePhase::Recording, recording_color, transcribing_color) == recording_color,
        phase_color(CyclePhase::Transcribing, recording_color, transcribing_color) == transcribing_color,
{
    reveal_strlit("idle");
    reveal_strlit("recording");
    reveal_strlit("transcribing");
    reveal_strlit("audio-input-microphone-symbolic");
    reveal_strlit("media-record-symbolic");
    reveal_strlit("emblem-synchronizing-symbolic");
    assert("idle"@.len() != "recording"@.len());
    assert("idle"@.len() != "transcribing"@.len());
    assert("recording"@.len() != "transcribing"@.len());
    assert("audio-input-microphone-symbolic"@[0] != "media-record-symbolic"@[0]);
    assert("audio-input-microphone-symbolic"@[0] != "emblem-synchronizing-symbolic"@[0]);
    assert("media-record-symbolic"@[0] != "emblem-synchronizing-symbolic"@[0]);
}

/// While recording, the tray returns to the icon and colour it showed on
/// entering the recording when speech stops, and shows another icon while
/// speech is heard.
pub proof fn lemma_speaking_tray(recording_color: Seq<char>, transcribing_color: Seq<char>)
    ensures
        speaking_icon(false) == phase_icon(CyclePhase::Recording),
        speaking_color(false, recording_color) == phase_color(CyclePhase::Recording, recording_color, transcribing_color),
        speaking_icon(true) != speaking_icon(false),
{
    reveal_strlit("audio-input-microphone-high-symbolic");
    reveal_strlit("media-record-symbolic");
    assert("audio-input-microphone-high-symbolic"@[0] != "media-record-symbolic"@[0]);
}

/// The icon, state name and colour the tray is updated with on entering a
/// phase.
pub fn tray_update(p: CyclePhase, recording_color: &str, transcribing_color: &str) -> (u: (String, String, String))
    ensures
        u.0@ == phase_icon(p),
        u.1@ == phase_status(p),
        u.2@ == phase_color(p, recording_color@, transcribing_color@),
{
    match p {
        CyclePhase::Idle => ("audio-input-microphone-symbolic".to_string(), "idle".to_string(), String::new()),
        CyclePhase::Recording => ("media-record-symbolic".to_string(), "recording".to_string(), recording_color.to_string()),
        CyclePhase::Transcribing => (
            "emblem-synchronizing-symbolic".to_string(),
            "transcribing".to_string(),
            transcribing_color.to_string(),
        ),
    }
}

/// The phase a trigger leads to: an idle daemon starts recording, a recording
/// one stops and transcribes. A trigger is not seen while a transcription is
/// being finished, so it leaves that phase as it is.
pub open spec fn phase_after_trigger(p: CyclePhase) -> CyclePhase {
    match p {
        CyclePhase::Idle => CyclePhase::Recording,
        CyclePhase::Recording => CyclePhase::Transcribing,
        CyclePhase::Transcribing => CyclePhase::Transcribing,
    }
}

/// The state of the dictation cycle: at most one dictation at a time.
pub struct DictationCycle {
    phase: CyclePhase,
}

impl DictationCycle {
    pub closed spec fn phase_view(&self) -> CyclePhase {
        self.phase
    }

    /// An idle cycle.
    pub fn new() -> (c: Self)
        ensures
            c.phase_view() == CyclePhase::Idle,
    {
        DictationCycle { phase: CyclePhase::Idle }
    }

    /// The current phase.
    pub fn phase(&self) -> (p: CyclePhase)
        ensures
            p == self.phase_view(),
    {
        self.phase
    }

    /// A trigger (the shortcut or the tray): returns the phase entered.
    pub fn on_trigger(&mut self) -> (p: CyclePhase)
        ensures
            p == phase_after_trigger(old(self).phase_view()),
            final(self).phase_view() == p,
    {
        self.phase = match self.phase {
            CyclePhase::Idle => CyclePhase::Recording,
            CyclePhase::Recording => CyclePhase::Transcribing,
            CyclePhase::Transcribing => CyclePhase::Transcribing,
        };
        self.phase
    }

    /// The transcription is finished (the text typed, or nothing heard):
    /// back to idle.
    pub fn on_transcribed(&mut self)
        ensures
            old(self).phase_view() == CyclePhase::Transcribing ==> final(self).phase_view() == CyclePhase::Idle,
            old(self).phase_view() != CyclePhase::Transcribing ==> final(self).phase_view() == old(self).phase_view(),
    {
        if self.phase == CyclePhase::Transcribing {
            self.phase = CyclePhase::Idle;
        }
    }

    /// The dictation was dropped (the system went to sleep while recording):
    /// back to idle.
    pub fn on_discarded(&mut self)
        ensures
            final(self).phase_view() == CyclePhase::Idle,
    {
        self.phase = CyclePhase::Idle;
    }
}

/// Starting from idle, triggers alternate between starting and stopping a
/// recording when each transcription finishes before the next trigger: the
/// `2k`-th trigger starts the `k`-th dictation and the next one stops it, so
/// no second recording starts while one runs.
pub proof fn lemma_triggers_alternate(p: CyclePhase)
    ensures
        p == CyclePhase::Idle ==> phase_after_trigger(p) == CyclePhase::Recording,
        p == CyclePhase::Recording ==> phase_after_trigger(p) == CyclePhase::Transcribing,
        phase_after_trigger(p) == CyclePhase::Recording ==> p == CyclePhase::Idle,
{
}

/// What a sleep or wake signal does.
pub enum SleepAction {
    /// The system goes to sleep during a dictation: drop the dictation, so
    /// nothing is typed, and restore the ducked volume and resume the players
    /// it paused.
    DiscardRecording,
    /// The system goes to sleep with no dictation running: nothing.
    Nothing,
    /// The system woke up: connect to the extension again.
    Reconnect,
}

/// The action for a sleep signal (`active` when going to sleep).
pub fn sleep_action(active: bool, recording: bool) -> (a: SleepAction)
    ensures
        active && recording ==> a is DiscardRecording,
        active && !recording ==> a is Nothing,
        !active ==> a is Reconnect,
{
    if active {
        if recording {
            SleepAction::DiscardRecording
        } else {
            SleepAction::Nothing
        }
    } else {
        SleepAction::Reconnect
    }
}

/// Whether the text read before the cursor is stale: the last focus seen was
/// in a window other than the one focused now.
pub fn is_stale_context(window_at_last_focus: Option<&str>, current_window: &str) -> (r: bool)
    ensures
        r == match window_at_last_focus {
            Some(w) => w@ != current_window@,
            None => false,
        },
{
    match window_at_last_focus {
        Some(w) => {
            let a = chars_of(w);
            let b = chars_of(current_window);
            !chars_equal(a.as_slice(), b.as_slice())
        },
        None => false,
    }
}

/// Whether a paused player is resumed: it is still paused on the same track.
pub open spec fn resume_player(status: Seq<char>, current_track: Seq<char>, paused_track: Seq<char>) -> bool {
    status == "Paused"@ && current_track == paused_track
}

/// Whether a player paused for the dictation is resumed afterwards (see
/// `resume_player`).
pub fn should_resume(status: &str, current_track_id: &str, paused: &crate::mpris::PlayerState) -> (r: bool)
    ensures
        r == resume_player(status@, current_track_id@, paused.track_id@),
{
    let s = chars_of(status);
    let paused_word = chars_of("Paused");
    let a = chars_of(current_track_id);
    let b = chars_of(paused.track_id.as_str());
    chars_equal(s.as_slice(), paused_word.as_slice()) && chars_equal(a.as_slice(), b.as_slice())
}

/// Whether a player is paused for the dictation: it is playing.
pub fn should_pause(status: &str) -> (r: bool)
    ensures
        r == (status@ == "Playing"@),
{
    let s = chars_of(status);
    let playing = chars_of("Playing");
    chars_equal(s.as_slice(), playing.as_slice())
}

pub open spec fn extension_bus_name() -> Seq<char> {
    "com.timcharper.dictation.Extension"@
}

/// Whether a change of bus-name owner means the extension went away (and the
/// daemon reconnects).
pub fn extension_vanished(name: &str, new_owner_present: bool) -> (r: bool)
    ensures
        r == (name@ == extension_bus_name() && !new_owner_present),
{
    let n = chars_of(name);
    let ext = chars_of("com.timcharper.dictation.Extension");
    chars_equal(n.as_slice(), ext.as_slice()) && !new_owner_present
}

/// `regex::Regex`.
#[verifier::external_type_specification]
#[verifier::external_body]
pub struct ExRegex(regex::Regex);

/// `regex::Error`.
#[verifier::external_type_specification]
#[verifier::external_body]
pub struct ExRegexError(regex::Error);

/// Whether `regex::Regex::new` accepts the pattern.
pub uninterp spec fn regex_compiles(pattern: Seq<char>) -> bool;

/// Whether the compiled pattern matches somewhere in the text
/// (`regex::Regex::is_match`).
pub uninterp spec fn regex_matches(pattern: Seq<char>, text: Seq<char>) -> bool;

/// A compiled regular expression and the pattern it was compiled from.
pub struct CompiledPattern {
    re: regex::Regex,
    source: String,
}

impl CompiledPattern {
    pub closed spec fn source_view(&self) -> Seq<char> {
        self.source@
    }
}

/// `regex::Regex::new`: compiles the pattern, or gives the reason it cannot.
/// Which patterns compile is named `regex_compiles`, a function of the pattern.
#[verifier::external_body]
fn compile_pattern(pattern: &str) -> (r: Result<CompiledPattern, regex::Error>)
    ensures
        r is Ok <==> regex_compiles(pattern@),
        r matches Ok(p) ==> p.source_view() == pattern@,
{
    match regex::Regex::new(pattern) {
        Ok(re) => Ok(CompiledPattern { re, source: pattern.to_string() }),
        Err(e) => Err(e),
    }
}

/// `regex::Regex::is_match`: whether the pattern matches somewhere in `text`,
/// named `regex_matches` over the pattern and the text.
#[verifier::external_body]
fn pattern_is_match(p: &CompiledPattern, text: &str) -> (r: bool)
    ensures
        r == regex_matches(p.source_view(), text@),
{
    p.re.is_match(text)
}

/// Whether one blacklist pattern rules out a window class: it compiles and
/// matches; a pattern that does not compile rules out nothing.
pub open spec fn pattern_blocks(pattern: Seq<char>, window: Seq<char>) -> bool {
    regex_compiles(pattern) && regex_matches(pattern, window)
}

/// Whether the window class is blacklisted for reading the text around the
/// cursor: it is not empty and some pattern blocks it.
pub fn is_blacklisted(patterns: &Vec<String>, window_class: &str) -> (r: bool)
    ensures
        r == (window_class@.len() > 0 && exists|k: int|
            0 <= k < patterns@.len() && pattern_blocks(#[trigger] patterns@[k]@, window_class@)),
{
    if window_class.is_empty() {
        return false;
    }
    let mut i: usize = 0;
    while i < patterns.len()
        invariant
            0 <= i <= patterns@.len(),
            window_class@.len() > 0,
            forall|k: int| 0 <= k < i ==> !pattern_blocks(#[trigger] patterns@[k]@, window_class@),
        decreases patterns@.len() - i,
    {
        match compile_pattern(patterns[i].as_str()) {
            Ok(p) => {
                if pattern_is_match(&p, window_class) {
                    assert(pattern_blocks(patterns@[i as int]@, window_class@));
                    return true;
                }
            },
            Err(_) => {},
        }
        i = i + 1;
    }
    false
}

/// Whether the text before the cursor is read when a dictation starts: the
/// context is not stale and the focused window is not blacklisted.
pub fn should_read_context(
    window_at_last_focus: Option<&str>,
    current_window: &str,
    blacklist: &Vec<String>,
) -> (r: bool)
    ensures
        r == (!match window_at_last_focus {
            Some(w) => w@ != current_window@,
            None => false,
        } && !(current_window@.len() > 0 && exists|k: int|
            0 <= k < blacklist@.len() && pattern_blocks(#[trigger] blacklist@[k]@, current_window@))),
{
    if is_stale_context(window_at_last_focus, current_window) {
        return false;
    }
    !is_blacklisted(blacklist, current_window)
}

} // verus!
