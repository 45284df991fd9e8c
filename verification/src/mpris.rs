//! Media players: what is remembered of a paused player, and how a track is
//! identified from a player's metadata.
use vstd::prelude::*;
use crate::text::{chars_equal, chars_of, push_all, string_from_chars};

verus! {

broadcast use vstd::string::group_string_axioms;

/// A player paused for a dictation: its bus name and the track it was on,
/// used to resume only if the same track is still there.
pub struct PlayerState {
    pub service: String,
    pub track_id: String,
}

/// A metadata value, as far as track identification reads it.
pub enum MetaValue {
    /// A value that converts to a string.
    Str(String),
    /// A value that converts to a list of strings.
    StrList(Vec<String>),
    /// Any other value.
    Other,
}

/// A player's metadata: keys with their values, each key once.
pub struct Metadata {
    entries: Vec<(String, MetaValue)>,
}

/// No key occurs twice.
pub open spec fn distinct_keys(es: Seq<(String, MetaValue)>) -> bool {
    forall|i: int, j: int| 0 <= i < j < es.len() ==> #[trigger] es[i].0@ != #[trigger] es[j].0@
}

/// The value stored under `key`.
pub open spec fn meta_get(es: Seq<(String, MetaValue)>, key: Seq<char>) -> Option<MetaValue>
    decreases es.len(),
{
    if es.len() == 0 {
        None
    } else if es[0].0@ == key {
        Some(es[0].1)
    } else {
        meta_get(es.drop_first(), key)
    }
}

proof fn lemma_meta_get_at(es: Seq<(String, MetaValue)>, i: int)
    requires
        distinct_keys(es),
        0 <= i < es.len(),
    ensures
        meta_get(es, es[i].0@) == Some(es[i].1),
    decreases es.len(),
{
    if i > 0 {
        assert(es[0].0@ != es[i].0@);
        let t = es.drop_first();
        assert(distinct_keys(t)) by {
            assert forall|a: int, b: int| 0 <= a < b < t.len() implies #[trigger] t[a].0@ != #[trigger] t[b].0@ by {
                assert(es[a + 1].0@ != es[b + 1].0@);
            }
        }
        lemma_meta_get_at(t, i - 1);
    }
}

proof fn lemma_meta_get_update(es: Seq<(String, MetaValue)>, i: int, e: (String, MetaValue), key: Seq<char>)
    requires
        distinct_keys(es),
        0 <= i < es.len(),
        e.0@ == es[i].0@,
        key != e.0@,
    ensures
        meta_get(es.update(i, e), key) == meta_get(es, key),
    decreases es.len(),
{
    let u = es.update(i, e);
    if i > 0 {
        let t = es.drop_first();
        assert(distinct_keys(t)) by {
            assert forall|a: int, b: int| 0 <= a < b < t.len() implies #[trigger] t[a].0@ != #[trigger] t[b].0@ by {
                assert(es[a + 1].0@ != es[b + 1].0@);
            }
        }
        lemma_meta_get_update(t, i - 1, e, key);
        assert(u.drop_first() =~= t.update(i - 1, e));
    } else {
        assert(u.drop_first() =~= es.drop_first());
    }
}

proof fn lemma_meta_get_push(es: Seq<(String, MetaValue)>, e: (String, MetaValue), key: Seq<char>)
    requires
        meta_get(es, e.0@) is None,
    ensures
        key == e.0@ ==> meta_get(es.push(e), key) == Some(e.1),
        key != e.0@ ==> meta_get(es.push(e), key) == meta_get(es, key),
    decreases es.len(),
{
    let u = es.push(e);
    if es.len() == 0 {
        assert(u.drop_first() =~= Seq::<(String, MetaValue)>::empty());
        assert(u[0] == e);
        assert(meta_get(u.drop_first(), key) is None);
    } else {
        assert(u[0] == es[0]);
        assert(u.drop_first() =~= es.drop_first().push(e));
        if es[0].0@ != key && es[0].0@ != e.0@ {
            lemma_meta_get_push(es.drop_first(), e, key);
        }
    }
}

proof fn lemma_distinct_push(es: Seq<(String, MetaValue)>, e: (String, MetaValue))
    requires
        distinct_keys(es),
        meta_get(es, e.0@) is None,
    ensures
        distinct_keys(es.push(e)),
{
    let u = es.push(e);
    assert forall|a: int, b: int| 0 <= a < b < u.len() implies #[trigger] u[a].0@ != #[trigger] u[b].0@ by {
        if b == es.len() {
            lemma_meta_get_at(es, a);
        } else {
            assert(es[a].0@ != es[b].0@);
        }
    }
}

impl Metadata {
    #[verifier::type_invariant]
    spec fn keys_distinct(self) -> bool {
        distinct_keys(self.entries@)
    }

    /// The entries, each key once.
    pub closed spec fn entries_view(&self) -> Seq<(String, MetaValue)> {
        self.entries@
    }

    /// Metadata with no entries.
    pub fn new() -> (m: Self)
        ensures
            m.entries_view().len() == 0,
    {
        Metadata { entries: Vec::new() }
    }

    /// Sets the value under `key`, replacing the one it had.
    pub fn insert(&mut self, key: String, value: MetaValue)
        ensures
            meta_get(final(self).entries_view(), key@) == Some(value),
            forall|k: Seq<char>| k != key@ ==> meta_get(final(self).entries_view(), k) == meta_get(
                old(self).entries_view(),
                k,
            ),
    {
        proof {
            use_type_invariant(&*self);
        }
        let mut es: Vec<(String, MetaValue)> = Vec::new();
        std::mem::swap(&mut es, &mut self.entries);
        let ghost old_es = es@;
        let ghost kv = key@;
        match find_key(&es, key.as_str()) {
            Some(i) => {
                let ghost e = (key, value);
                es.set(i, (key, value));
                proof {
                    assert(es@ == old_es.update(i as int, e));
                    assert(distinct_keys(es@)) by {
                        assert forall|a: int, b: int| 0 <= a < b < es@.len() implies #[trigger] es@[a].0@ != #[trigger] es@[b].0@ by {
                            assert(old_es[a].0@ != old_es[b].0@);
                        }
                    }
                    lemma_meta_get_at(es@, i as int);
                    assert forall|k: Seq<char>| k != kv implies meta_get(es@, k) == meta_get(old_es, k) by {
                        lemma_meta_get_update(old_es, i as int, e, k);
                    }
                }
            },
            None => {
                let ghost e = (key, value);
                es.push((key, value));
                proof {
                    assert(es@ == old_es.push(e));
                    lemma_distinct_push(old_es, e);
                    lemma_meta_get_push(old_es, e, kv);
                    assert forall|k: Seq<char>| k != kv implies meta_get(es@, k) == meta_get(old_es, k) by {
                        lemma_meta_get_push(old_es, e, k);
                    }
                }
            },
        }
        self.entries = es;
    }
}

/// The string under `key`, or empty when it is missing or not a string.
pub open spec fn string_field_of(es: Seq<(String, MetaValue)>, key: Seq<char>) -> Seq<char> {
    match meta_get(es, key) {
        Some(MetaValue::Str(s)) => s@,
        _ => Seq::empty(),
    }
}

/// The first string of the list under `key`, or empty when there is none.
pub open spec fn array_first_string_of(es: Seq<(String, MetaValue)>, key: Seq<char>) -> Seq<char> {
    match meta_get(es, key) {
        Some(MetaValue::StrList(l)) => if l@.len() > 0 {
            l@[0]@
        } else {
            Seq::empty()
        },
        _ => Seq::empty(),
    }
}

pub open spec fn no_track_path() -> Seq<char> {
    "/org/mpris/MediaPlayer2/TrackList/NoTrack"@
}

/// A stable identifier of the current track: `mpris:trackid` when it is a
/// real track id, else the title and the first artist joined by `|`.
pub open spec fn track_id_of(es: Seq<(String, MetaValue)>) -> Seq<char> {
    match meta_get(es, "mpris:trackid"@) {
        Some(MetaValue::Str(s)) if s@.len() > 0 && s@ != no_track_path() => s@,
        _ => string_field_of(es, "xesam:title"@) + seq!['|'] + array_first_string_of(
            es,
            "xesam:artist"@,
        ),
    }
}

/// The index of the entry for `key`, if any.
fn find_key(es: &Vec<(String, MetaValue)>, key: &str) -> (r: Option<usize>)
    ensures
        match r {
            Some(i) => i < es@.len() && meta_get(es@, key@) == Some(es@[i as int].1) && es@[i as int].0@ == key@,
            None => meta_get(es@, key@) is None,
        },
{
    let k = chars_of(key);
    let mut i: usize = 0;
    assert(es@.skip(0) =~= es@);
    while i < es.len()
        invariant
            0 <= i <= es@.len(),
            k@ == key@,
            meta_get(es@, key@) == meta_get(es@.skip(i as int), key@),
        decreases es@.len() - i,
    {
        let name = chars_of(es[i].0.as_str());
        assert(es@.skip(i as int)[0] == es@[i as int]);
        if chars_equal(name.as_slice(), k.as_slice()) {
            return Some(i);
        }
        assert(es@.skip(i as int).drop_first() =~= es@.skip(i + 1 as int));
        i = i + 1;
    }
    assert(es@.skip(i as int) =~= Seq::<(String, MetaValue)>::empty());
    None
}

/// The string under `key`, or empty when it is missing or not a string.
pub fn string_field(metadata: &Metadata, key: &str) -> (r: String)
    ensures
        r@ == string_field_of(metadata.entries_view(), key@),
{
    match find_key(&metadata.entries, key) {
        Some(i) => match &metadata.entries[i].1 {
            MetaValue::Str(s) => s.clone(),
            _ => String::new(),
        },
        None => String::new(),
    }
}

/// The first string of the list under `key`, or empty when there is none.
pub fn array_first_string(metadata: &Metadata, key: &str) -> (r: String)
    ensures
        r@ == array_first_string_of(metadata.entries_view(), key@),
{
    match find_key(&metadata.entries, key) {
        Some(i) => match &metadata.entries[i].1 {
            MetaValue::StrList(l) => if l.len() > 0 {
                l[0].clone()
            } else {
                String::new()
            },
            _ => String::new(),
        },
        None => String::new(),
    }
}

/// A stable identifier of the current track (see `track_id_of`).
pub fn extract_track_id(metadata: &Metadata) -> (r: String)
    ensures
        r@ == track_id_of(metadata.entries_view()),
{
    match find_key(&metadata.entries, "mpris:trackid") {
        Some(i) => match &metadata.entries[i].1 {
            MetaValue::Str(s) => {
                let cs = chars_of(s.as_str());
                let none = chars_of("/org/mpris/MediaPlayer2/TrackList/NoTrack");
                if cs.len() > 0 && !chars_equal(cs.as_slice(), none.as_slice()) {
                    return s.clone();
                }
            },
            _ => {},
        },
        None => {},
    }
    let title = string_field(metadata, "xesam:title");
    let artist = array_first_string(metadata, "xesam:artist");
    let mut out = chars_of(title.as_str());
    out.push('|');
    let a = chars_of(artist.as_str());
    push_all(&mut out, a.as_slice());
    string_from_chars(out.as_slice())
}

} // verus!
