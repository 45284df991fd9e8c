//! What is read of the accessibility tree: the text before the cursor, and
//! the cleaned text of visible elements.
use vstd::prelude::*;
use crate::text::{chars_of, string_from_chars, trim_chars, trim_seq};

verus! {

/// The caret position in the focused element and the text just before it.
pub struct CursorInfo {
    pub _offset: i32,
    pub text_before: String,
}

/// How many characters before the caret are read.
pub const CONTEXT_CHARS: i32 = 100;

/// The range of characters read before a caret at `offset`: up to
/// `CONTEXT_CHARS` characters ending at the caret; none when the element
/// reports no caret (a negative offset).
pub fn cursor_text_range(offset: i32) -> (r: Option<(i32, i32)>)
    ensures
        offset < 0 ==> r is None,
        offset >= 0 ==> r == Some((if offset - CONTEXT_CHARS > 0 { (offset - CONTEXT_CHARS) as i32 } else { 0i32 }, offset)),
{
    if offset < 0 {
        return None;
    }
    let start = if offset - CONTEXT_CHARS > 0 {
        offset - CONTEXT_CHARS
    } else {
        0
    };
    Some((start, offset))
}

/// The object replacement character that stands for embedded objects.
pub open spec fn is_object_replacement(c: char) -> bool {
    c == '\u{fffc}'
}

/// The text of an element as it is collected: trimmed, then with every object
/// replacement character removed.
pub open spec fn cleaned_text(text: Seq<char>) -> Seq<char> {
    trim_seq(text).filter(|c: char| !is_object_replacement(c))
}

/// A cleaned text holds no object replacement character.
pub proof fn lemma_cleaned_text_has_no_placeholders(text: Seq<char>)
    ensures
        forall|k: int| 0 <= k < cleaned_text(text).len() ==> !is_object_replacement(#[trigger] cleaned_text(text)[k]),
{
    let t = trim_seq(text);
    let p = |c: char| !is_object_replacement(c);
    assert forall|k: int| 0 <= k < t.filter(p).len() implies p(#[trigger] t.filter(p)[k]) by {
        t.lemma_filter_pred(p, k);
    }
}

/// The cleaned text of an element, or `None` when nothing is left.
pub fn clean_node_text(text: &str) -> (r: Option<String>)
    ensures
        cleaned_text(text@).len() == 0 ==> r is None,
        cleaned_text(text@).len() > 0 ==> (r matches Some(s) && s@ == cleaned_text(text@)),
{
    let cs = chars_of(text);
    let t = trim_chars(cs.as_slice());
    let mut out: Vec<char> = Vec::new();
    let mut i: usize = 0;
    while i < t.len()
        invariant
            0 <= i <= t@.len(),
            out@ == t@.take(i as int).filter(|c: char| !is_object_replacement(c)),
        decreases t@.len() - i,
    {
        let c = t[i];
        proof {
            reveal_with_fuel(Seq::filter, 1);
            assert(t@.take(i + 1 as int).drop_last() =~= t@.take(i as int));
        }
        if c != '\u{fffc}' {
            out.push(c);
        }
        i = i + 1;
    }
    assert(t@.take(t@.len() as int) =~= t@);
    if out.len() == 0 {
        None
    } else {
        Some(string_from_chars(out.as_slice()))
    }
}

/// How deep the visible-text walk goes below the active window.
pub const VISIBLE_TEXT_DEPTH: u32 = 20;

/// How deep the search for the focused element goes.
pub const FOCUS_SEARCH_DEPTH: u32 = 50;

/// How many ancestors of the focused element are read for context.
pub const CONTEXT_ANCESTORS: u32 = 20;

/// Whether the visible-text walk reads an element at `depth` with these
/// states: it is within the depth limit and visible or showing.
pub fn visits_for_visible_text(depth: u32, visible: bool, showing: bool) -> (r: bool)
    ensures
        r == (depth <= VISIBLE_TEXT_DEPTH && (visible || showing)),
{
    depth <= VISIBLE_TEXT_DEPTH && (visible || showing)
}

/// Whether the focus search still looks at an element at `depth`.
pub fn searches_for_focus(depth: u32) -> (r: bool)
    ensures
        r == (depth <= FOCUS_SEARCH_DEPTH),
{
    depth <= FOCUS_SEARCH_DEPTH
}

} // verus!
