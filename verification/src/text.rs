//! Character-level text model shared by the transcription, prompt and menu code:
//! Unicode whitespace, whitespace-separated words, joining words with one space,
//! trimming, and the conversions between `&str`, `Vec<char>` and `String`.
use vstd::prelude::*;
use vstd::string::StringExecFns;

verus! {

broadcast use vstd::string::group_string_axioms;

/// The characters with the Unicode `White_Space` property, which is what
/// `char::is_whitespace` (and so `str::split_whitespace` and `str::trim`) uses.
pub open spec fn is_white_space(c: char) -> bool {
    let n = c as u32;
    ||| 0x9 <= n <= 0xd
    ||| n == 0x20
    ||| n == 0x85
    ||| n == 0xa0
    ||| n == 0x1680
    ||| 0x2000 <= n <= 0x200a
    ||| n == 0x2028
    ||| n == 0x2029
    ||| n == 0x202f
    ||| n == 0x205f
    ||| n == 0x3000
}

/// Whether the character has the Unicode `White_Space` property, as
/// `char::is_whitespace` decides it.
fn char_is_whitespace(c: char) -> (r: bool)
    ensures
        r == is_white_space(c),
{
    let n = c as u32;
    (0x9 <= n && n <= 0xd) || n == 0x20 || n == 0x85 || n == 0xa0 || n == 0x1680 || (0x2000 <= n && n <= 0x200a)
        || n == 0x2028 || n == 0x2029 || n == 0x202f || n == 0x205f || n == 0x3000
}

/// Length of the run of non-whitespace characters at the start of `s`.
pub open spec fn word_len(s: Seq<char>) -> nat
    decreases s.len(),
{
    if s.len() == 0 || is_white_space(s[0]) {
        0
    } else {
        1 + word_len(s.drop_first())
    }
}

pub proof fn lemma_word_len_bound(s: Seq<char>)
    ensures
        word_len(s) <= s.len(),
        s.len() > 0 && !is_white_space(s[0]) ==> word_len(s) >= 1,
    decreases s.len(),
{
    if s.len() > 0 && !is_white_space(s[0]) {
        lemma_word_len_bound(s.drop_first());
    }
}

/// The maximal runs of non-whitespace characters of `s`, in order: what
/// `str::split_whitespace` yields.
pub open spec fn words(s: Seq<char>) -> Seq<Seq<char>>
    decreases s.len(),
{
    if s.len() == 0 {
        Seq::empty()
    } else if is_white_space(s[0]) {
        words(s.drop_first())
    } else {
        proof {
            lemma_word_len_bound(s);
        }
        seq![s.take(word_len(s) as int)] + words(s.skip(word_len(s) as int))
    }
}

/// The words of `ws` separated by single spaces: `[&str]::join(" ")`.
pub open spec fn join_words(ws: Seq<Seq<char>>) -> Seq<char>
    decreases ws.len(),
{
    if ws.len() == 0 {
        Seq::empty()
    } else if ws.len() == 1 {
        ws[0]
    } else {
        ws[0] + seq![' '] + join_words(ws.drop_first())
    }
}

/// A word as `split_whitespace` produces it: non-empty and free of whitespace.
pub open spec fn is_word(w: Seq<char>) -> bool {
    w.len() > 0 && forall|k: int| 0 <= k < w.len() ==> !is_white_space(#[trigger] w[k])
}

pub open spec fn all_words(ws: Seq<Seq<char>>) -> bool {
    forall|k: int| 0 <= k < ws.len() ==> is_word(#[trigger] ws[k])
}

/// `s` with its whitespace runs collapsed to single spaces and its ends trimmed.
pub open spec fn collapse_whitespace(s: Seq<char>) -> Seq<char> {
    join_words(words(s))
}

/// The last `n` words of `ws` (all of them when there are at most `n`).
pub open spec fn last_words(ws: Seq<Seq<char>>, n: nat) -> Seq<Seq<char>> {
    if ws.len() > n {
        ws.subrange(ws.len() - n, ws.len() as int)
    } else {
        ws
    }
}

proof fn lemma_word_len_exact(s: Seq<char>, j: int)
    requires
        0 <= j <= s.len(),
        forall|k: int| 0 <= k < j ==> !is_white_space(#[trigger] s[k]),
        j == s.len() || is_white_space(s[j]),
    ensures
        word_len(s) == j,
    decreases j,
{
    if j > 0 {
        let t = s.drop_first();
        assert forall|k: int| 0 <= k < j - 1 implies !is_white_space(#[trigger] t[k]) by {
            assert(t[k] == s[k + 1]);
        }
        if j < s.len() {
            assert(t[j - 1] == s[j]);
        }
        lemma_word_len_exact(t, j - 1);
    }
}

proof fn lemma_words_skip_white(s: Seq<char>, i: int)
    requires
        0 <= i < s.len(),
        is_white_space(s[i]),
    ensures
        words(s.skip(i)) == words(s.skip(i + 1)),
{
    let t = s.skip(i);
    assert(t[0] == s[i]);
    assert(t.drop_first() =~= s.skip(i + 1));
}

proof fn lemma_words_skip_word(s: Seq<char>, i: int, j: int)
    requires
        0 <= i < j <= s.len(),
        forall|k: int| i <= k < j ==> !is_white_space(#[trigger] s[k]),
        j == s.len() || is_white_space(s[j]),
    ensures
        words(s.skip(i)) == seq![s.subrange(i, j)] + words(s.skip(j)),
{
    let t = s.skip(i);
    assert forall|k: int| 0 <= k < j - i implies !is_white_space(#[trigger] t[k]) by {
        assert(t[k] == s[i + k]);
    }
    if j < s.len() {
        assert(t[j - i] == s[j]);
    }
    lemma_word_len_exact(t, j - i);
    assert(t[0] == s[i]);
    assert(t.take(j - i) =~= s.subrange(i, j));
    assert(t.skip(j - i) =~= s.skip(j));
}

/// Every element of `words(s)` is a word.
pub proof fn lemma_words_are_words(s: Seq<char>)
    ensures
        all_words(words(s)),
    decreases s.len(),
{
    if s.len() > 0 {
        if is_white_space(s[0]) {
            lemma_words_are_words(s.drop_first());
        } else {
            lemma_word_len_bound(s);
            let n = word_len(s) as int;
            lemma_words_are_words(s.skip(n));
            let w = s.take(n);
            assert forall|k: int| 0 <= k < w.len() implies !is_white_space(#[trigger] w[k]) by {
                lemma_word_len_prefix(s, k);
            }
            let ws = words(s);
            assert forall|k: int| 0 <= k < ws.len() implies is_word(#[trigger] ws[k]) by {
                if k > 0 {
                    assert(ws[k] == words(s.skip(n))[k - 1]);
                }
            }
        }
    }
}

proof fn lemma_word_len_prefix(s: Seq<char>, k: int)
    requires
        0 <= k < word_len(s),
    ensures
        k < s.len(),
        !is_white_space(s[k]),
    decreases k,
{
    lemma_word_len_bound(s);
    if k > 0 {
        lemma_word_len_prefix(s.drop_first(), k - 1);
        assert(s.drop_first()[k - 1] == s[k]);
    }
}

proof fn lemma_word_len_end(s: Seq<char>)
    ensures
        word_len(s) == s.len() || is_white_space(s[word_len(s) as int]),
    decreases s.len(),
{
    lemma_word_len_bound(s);
    if s.len() > 0 && !is_white_space(s[0]) {
        lemma_word_len_end(s.drop_first());
        lemma_word_len_bound(s.drop_first());
        if word_len(s) < s.len() {
            assert(s.drop_first()[word_len(s) - 1] == s[word_len(s) as int]);
        }
    }
}

/// A `Vec<char>` is deeply viewed as its characters.
pub proof fn lemma_char_vec_deep_view(v: &Vec<char>)
    ensures
        v.deep_view() == v@,
{
    assert(v.deep_view() =~= v@);
}

/// Joining words and splitting again gives the same words back.
pub proof fn lemma_words_of_join(ws: Seq<Seq<char>>)
    requires
        all_words(ws),
    ensures
        words(join_words(ws)) == ws,
    decreases ws.len(),
{
    if ws.len() == 0 {
        assert(words(join_words(ws)) =~= ws);
    } else {
        let w = ws[0];
        assert(is_word(ws[0]));
        let rest = ws.drop_first();
        assert forall|k: int| 0 <= k < rest.len() implies is_word(#[trigger] rest[k]) by {
            assert(rest[k] == ws[k + 1]);
        }
        lemma_words_of_join(rest);
        if ws.len() == 1 {
            let s = w;
            assert(join_words(ws) == w);
            lemma_words_skip_word(s, 0, s.len() as int);
            assert(s.skip(0) =~= s);
            assert(s.subrange(0, s.len() as int) =~= s);
            assert(s.skip(s.len() as int) =~= Seq::<char>::empty());
            assert(words(Seq::<char>::empty()) =~= Seq::<Seq<char>>::empty());
            assert(ws =~= seq![w]);
        } else {
            let tail = join_words(rest);
            let s = w + seq![' '] + tail;
            assert(join_words(ws) == s);
            assert forall|k: int| 0 <= k < w.len() implies !is_white_space(#[trigger] s[k]) by {
                assert(s[k] == w[k]);
            }
            assert(s[w.len() as int] == ' ');
            lemma_words_skip_word(s, 0, w.len() as int);
            assert(s.skip(0) =~= s);
            assert(s.subrange(0, w.len() as int) =~= w);
            lemma_words_skip_white(s, w.len() as int);
            assert(s.skip(w.len() + 1 as int) =~= tail);
            assert(ws =~= seq![w] + rest);
        }
    }
}

/// Splitting the collapsed text gives the same words as splitting the input.
pub proof fn lemma_words_of_collapse(s: Seq<char>)
    ensures
        words(collapse_whitespace(s)) == words(s),
{
    lemma_words_are_words(s);
    lemma_words_of_join(words(s));
}

/// Two texts with whitespace at the same places and equal characters elsewhere
/// have the same words.
pub proof fn lemma_words_same_shape(s: Seq<char>, t: Seq<char>)
    requires
        s.len() == t.len(),
        forall|k: int|
            0 <= k < s.len() ==> (is_white_space(#[trigger] s[k]) <==> is_white_space(t[k])),
        forall|k: int| 0 <= k < s.len() && !is_white_space(#[trigger] s[k]) ==> s[k] == t[k],
    ensures
        words(s) == words(t),
    decreases s.len(),
{
    if s.len() > 0 {
        if is_white_space(s[0]) {
            let s1 = s.drop_first();
            let t1 = t.drop_first();
            assert forall|k: int| 0 <= k < s1.len() implies (is_white_space(#[trigger] s1[k])
                <==> is_white_space(t1[k])) by {
                assert(s1[k] == s[k + 1] && t1[k] == t[k + 1]);
            }
            assert forall|k: int| 0 <= k < s1.len() && !is_white_space(#[trigger] s1[k]) implies s1[k]
                == t1[k] by {
                assert(s1[k] == s[k + 1] && t1[k] == t[k + 1]);
            }
            lemma_words_same_shape(s1, t1);
        } else {
            lemma_word_len_bound(s);
            let n = word_len(s) as int;
            assert forall|k: int| 0 <= k < n implies !is_white_space(#[trigger] t[k]) by {
                lemma_word_len_prefix(s, k);
            }
            lemma_word_len_end(s);
            lemma_word_len_exact(t, n);
            assert forall|k: int| 0 <= k < n implies s.take(n)[k] == #[trigger] t.take(n)[k] by {
                lemma_word_len_prefix(s, k);
            }
            assert(s.take(n) =~= t.take(n));
            let s1 = s.skip(n);
            let t1 = t.skip(n);
            assert forall|k: int| 0 <= k < s1.len() implies (is_white_space(#[trigger] s1[k])
                <==> is_white_space(t1[k])) by {
                assert(s1[k] == s[k + n] && t1[k] == t[k + n]);
            }
            assert forall|k: int| 0 <= k < s1.len() && !is_white_space(#[trigger] s1[k]) implies s1[k]
                == t1[k] by {
                assert(s1[k] == s[k + n] && t1[k] == t[k + n]);
            }
            lemma_words_same_shape(s1, t1);
        }
    }
}

proof fn lemma_join_push(ws: Seq<Seq<char>>, w: Seq<char>)
    requires
        ws.len() > 0,
    ensures
        join_words(ws.push(w)) == join_words(ws) + seq![' '] + w,
    decreases ws.len(),
{
    let p = ws.push(w);
    assert(p[0] == ws[0]);
    if ws.len() == 1 {
        assert(p.drop_first() =~= seq![w]);
        assert(join_words(seq![w]) == w);
        assert(join_words(ws) == ws[0]);
    } else {
        lemma_join_push(ws.drop_first(), w);
        assert(p.drop_first() =~= ws.drop_first().push(w));
        assert(join_words(p) == p[0] + seq![' '] + join_words(p.drop_first()));
        assert(join_words(ws) == ws[0] + seq![' '] + join_words(ws.drop_first()));
        assert(join_words(p) =~= join_words(ws) + seq![' '] + w);
    }
}

/// The characters of a string slice.
pub fn chars_of(s: &str) -> (v: Vec<char>)
    ensures
        v@ == s@,
{
    let mut v: Vec<char> = Vec::new();
    for c in it: s.chars()
        invariant
            it.seq() == s@,
            v@ == s@.take(it.index()),
    {
        v.push(c);
    }
    v
}

/// `String: FromIterator<char>`: the string made of the given characters.
#[verifier::external_body]
pub(crate) fn string_from_chars(v: &[char]) -> (s: String)
    ensures
        s@ == v@,
{
    v.iter().collect()
}

/// Appends all of `src` to `dst`.
pub fn push_all(dst: &mut Vec<char>, src: &[char])
    ensures
        final(dst)@ == old(dst)@ + src@,
{
    let mut i: usize = 0;
    while i < src.len()
        invariant
            0 <= i <= src@.len(),
            dst@ == old(dst)@ + src@.take(i as int),
        decreases src@.len() - i,
    {
        dst.push(src[i]);
        i = i + 1;
        assert(src@.take(i as int) =~= src@.take(i - 1) + seq![src@[i - 1]]);
    }
    assert(src@.take(src@.len() as int) =~= src@);
}

/// `str::split_whitespace`, collected.
pub fn split_whitespace(s: &[char]) -> (ws: Vec<Vec<char>>)
    ensures
        ws.deep_view() == words(s@),
{
    let n = s.len();
    let mut out: Vec<Vec<char>> = Vec::new();
    let mut i: usize = 0;
    assert(s@.skip(0) =~= s@);
    while i < n
        invariant
            n == s@.len(),
            0 <= i <= n,
            words(s@) == out.deep_view() + words(s@.skip(i as int)),
        decreases n - i,
    {
        if char_is_whitespace(s[i]) {
            proof {
                lemma_words_skip_white(s@, i as int);
            }
            i = i + 1;
        } else {
            let mut w: Vec<char> = Vec::new();
            let mut j: usize = i;
            loop
                invariant
                    n == s@.len(),
                    i < n,
                    !is_white_space(s@[i as int]),
                    i <= j <= n,
                    w@ == s@.subrange(i as int, j as int),
                    forall|k: int| i <= k < j ==> !is_white_space(#[trigger] s@[k]),
                ensures
                    i < j <= n,
                    w@ == s@.subrange(i as int, j as int),
                    forall|k: int| i <= k < j ==> !is_white_space(#[trigger] s@[k]),
                    j == n || is_white_space(s@[j as int]),
                decreases n - j,
            {
                if j >= n {
                    break;
                }
                if char_is_whitespace(s[j]) {
                    break;
                }
                w.push(s[j]);
                j = j + 1;
                assert(w@ =~= s@.subrange(i as int, j as int));
            }
            proof {
                lemma_words_skip_word(s@, i as int, j as int);
            }
            let ghost before = out.deep_view();
            let ghost before_v = out@;
            proof {
                lemma_char_vec_deep_view(&w);
            }
            out.push(w);
            assert(out@ == before_v.push(w));
            assert forall|k: int| 0 <= k < out@.len() implies #[trigger] out.deep_view()[k]
                == before.push(s@.subrange(i as int, j as int))[k] by {
                if k < before_v.len() {
                    assert(out@[k] == before_v[k]);
                }
            }
            assert(out.deep_view() =~= before.push(s@.subrange(i as int, j as int)));
            i = j;
        }
    }
    assert(s@.skip(n as int) =~= Seq::<char>::empty());
    assert(words(Seq::<char>::empty()) =~= Seq::<Seq<char>>::empty());
    assert(out.deep_view() =~= words(s@));
    out
}

/// `ws[from..].join(" ")`.
pub fn join_words_from(ws: &Vec<Vec<char>>, from: usize) -> (r: Vec<char>)
    requires
        from <= ws@.len(),
    ensures
        r@ == join_words(ws.deep_view().subrange(from as int, ws@.len() as int)),
{
    let ghost dv = ws.deep_view();
    let mut r: Vec<char> = Vec::new();
    let mut k: usize = from;
    assert(dv.subrange(from as int, from as int) =~= Seq::<Seq<char>>::empty());
    while k < ws.len()
        invariant
            dv == ws.deep_view(),
            dv.len() == ws@.len(),
            from <= k <= ws@.len(),
            r@ == join_words(dv.subrange(from as int, k as int)),
        decreases ws@.len() - k,
    {
        let ghost prev = dv.subrange(from as int, k as int);
        assert(dv.subrange(from as int, k + 1) =~= prev.push(dv[k as int]));
        proof {
            lemma_char_vec_deep_view(&ws[k as int]);
        }
        assert(ws[k as int]@ == dv[k as int]);
        if k == from {
            assert(prev.push(dv[k as int]) =~= seq![dv[k as int]]);
            push_all(&mut r, ws[k].as_slice());
        } else {
            proof {
                lemma_join_push(prev, dv[k as int]);
            }
            r.push(' ');
            push_all(&mut r, ws[k].as_slice());
        }
        k = k + 1;
    }
    r
}

/// Collapses whitespace runs to single spaces and trims both ends:
/// `s.split_whitespace().collect::<Vec<_>>().join(" ")`.
pub fn collapse(s: &[char]) -> (r: Vec<char>)
    ensures
        r@ == collapse_whitespace(s@),
{
    let ws = split_whitespace(s);
    let r = join_words_from(&ws, 0);
    assert(ws.deep_view().subrange(0, ws@.len() as int) =~= ws.deep_view());
    r
}

/// The last `n` words of `ws` joined with single spaces.
pub fn join_last_words(ws: &Vec<Vec<char>>, n: usize) -> (r: Vec<char>)
    ensures
        r@ == join_words(last_words(ws.deep_view(), n as nat)),
{
    if ws.len() > n {
        join_words_from(ws, ws.len() - n)
    } else {
        let r = join_words_from(ws, 0);
        assert(ws.deep_view().subrange(0, ws@.len() as int) =~= ws.deep_view());
        r
    }
}

/// The line-break characters that the transcription responses turn into spaces.
pub open spec fn is_line_break(c: char) -> bool {
    let n = c as u32;
    n == 0xd || n == 0xa || n == 0xb || n == 0xc || n == 0x85 || n == 0x2028 || n == 0x2029
}

pub open spec fn line_break_to_space(c: char) -> char {
    if is_line_break(c) {
        ' '
    } else {
        c
    }
}

/// A transcription text after sanitizing: line breaks turned into spaces, then
/// whitespace runs collapsed to single spaces and the ends trimmed.
pub open spec fn sanitized_text(s: Seq<char>) -> Seq<char> {
    collapse_whitespace(s.map_values(|c: char| line_break_to_space(c)))
}

/// Turning line breaks into spaces changes nothing after collapsing: the
/// sanitized text is the whitespace-collapsed text.
pub proof fn lemma_sanitized_is_collapsed(s: Seq<char>)
    ensures
        sanitized_text(s) == collapse_whitespace(s),
{
    let t = s.map_values(|c: char| line_break_to_space(c));
    assert forall|k: int| 0 <= k < s.len() implies (is_white_space(#[trigger] s[k])
        <==> is_white_space(t[k])) by {
        assert(t[k] == line_break_to_space(s[k]));
    }
    assert forall|k: int| 0 <= k < s.len() && !is_white_space(#[trigger] s[k]) implies s[k]
        == t[k] by {
        assert(t[k] == line_break_to_space(s[k]));
    }
    lemma_words_same_shape(s, t);
}

/// Sanitizing twice is sanitizing once.
pub proof fn lemma_sanitize_idempotent(s: Seq<char>)
    ensures
        sanitized_text(sanitized_text(s)) == sanitized_text(s),
{
    lemma_sanitized_is_collapsed(s);
    lemma_sanitized_is_collapsed(sanitized_text(s));
    lemma_words_of_collapse(s);
}

/// A sanitized text has no whitespace at either end and no whitespace other than
/// single spaces between words.
pub proof fn lemma_sanitized_shape(s: Seq<char>)
    ensures
        sanitized_text(s) == join_words(words(s)),
        all_words(words(s)),
{
    lemma_sanitized_is_collapsed(s);
    lemma_words_are_words(s);
}

/// Sanitizes a transcription text (see `sanitized_text`).
pub fn sanitize_text(text: &str) -> (r: String)
    ensures
        r@ == sanitized_text(text@),
{
    let cs = chars_of(text);
    let mut mapped: Vec<char> = Vec::new();
    let mut i: usize = 0;
    while i < cs.len()
        invariant
            0 <= i <= cs@.len(),
            cs@ == text@,
            mapped@ == text@.take(i as int).map_values(|c: char| line_break_to_space(c)),
        decreases cs@.len() - i,
    {
        let c = cs[i];
        let n = c as u32;
        let m = if n == 0xd || n == 0xa || n == 0xb || n == 0xc || n == 0x85 || n == 0x2028 || n
            == 0x2029 {
            ' '
        } else {
            c
        };
        assert(m == line_break_to_space(c));
        assert(text@.take(i + 1 as int) =~= text@.take(i as int).push(c));
        mapped.push(m);
        i = i + 1;
        assert(mapped@ =~= text@.take(i as int).map_values(|c: char| line_break_to_space(c)));
    }
    assert(text@.take(cs@.len() as int) =~= text@);
    let r = collapse(mapped.as_slice());
    string_from_chars(r.as_slice())
}

/// `s` holds `pat` starting at position `i`.
pub open spec fn occurs_at(s: Seq<char>, pat: Seq<char>, i: int) -> bool {
    0 <= i && i + pat.len() <= s.len() && s.subrange(i, i + pat.len()) == pat
}

/// `str::contains` with a string pattern.
pub open spec fn contains_seq(s: Seq<char>, pat: Seq<char>) -> bool {
    exists|i: int| occurs_at(s, pat, i)
}

/// Whether `pat` occurs in `s`.
pub fn contains_chars(s: &[char], pat: &[char]) -> (r: bool)
    ensures
        r == contains_seq(s@, pat@),
{
    if pat.len() > s.len() {
        assert forall|i: int| !occurs_at(s@, pat@, i) by {}
        return false;
    }
    if pat.len() == 0 {
        assert(s@.subrange(0, 0) =~= pat@);
        assert(occurs_at(s@, pat@, 0));
        return true;
    }
    let last = s.len() - pat.len();
    let mut i: usize = 0;
    while i <= last
        invariant
            last == s@.len() - pat@.len(),
            last < s.len(),
            0 < pat@.len() <= s@.len(),
            0 <= i <= last + 1,
            forall|k: int| 0 <= k < i ==> !occurs_at(s@, pat@, k),
        decreases last + 1 - i,
    {
        let mut j: usize = 0;
        let mut same = true;
        while j < pat.len()
            invariant
                0 <= j <= pat@.len(),
                i <= last,
                last == s@.len() - pat@.len(),
                i + pat@.len() <= s@.len(),
                s@.len() == s.len(),
                same == (forall|k: int| 0 <= k < j ==> s@[i + k] == pat@[k]),
            decreases pat@.len() - j,
        {
            if s[i + j] != pat[j] {
                same = false;
            }
            j = j + 1;
        }
        if same {
            assert(s@.subrange(i as int, i + pat@.len()) =~= pat@);
            assert(occurs_at(s@, pat@, i as int));
            return true;
        }
        assert(!occurs_at(s@, pat@, i as int)) by {
            if occurs_at(s@, pat@, i as int) {
                let k = choose|k: int| 0 <= k < pat@.len() && s@[i + k] != pat@[k];
                assert(s@.subrange(i as int, i + pat@.len())[k] == s@[i + k]);
            }
        }
        i = i + 1;
    }
    assert forall|k: int| !occurs_at(s@, pat@, k) by {
        if k > last {
            assert(!occurs_at(s@, pat@, k));
        }
    }
    false
}

/// `str::starts_with` with a string pattern.
pub open spec fn has_prefix(s: Seq<char>, pat: Seq<char>) -> bool {
    pat.len() <= s.len() && s.take(pat.len() as int) == pat
}

/// Whether `s` starts with `pat`.
pub fn starts_with_chars(s: &[char], pat: &[char]) -> (r: bool)
    ensures
        r == has_prefix(s@, pat@),
{
    if pat.len() > s.len() {
        return false;
    }
    let mut j: usize = 0;
    while j < pat.len()
        invariant
            0 <= j <= pat@.len(),
            pat@.len() <= s@.len(),
            forall|k: int| 0 <= k < j ==> s@[k] == pat@[k],
        decreases pat@.len() - j,
    {
        if s[j] != pat[j] {
            assert(s@.take(pat@.len() as int)[j as int] != pat@[j as int]);
            return false;
        }
        j = j + 1;
    }
    assert(s@.take(pat@.len() as int) =~= pat@);
    true
}

/// The decimal digit character for `d` (`'0'` to `'9'`).
pub open spec fn digit_char(d: nat) -> char {
    seq!['0', '1', '2', '3', '4', '5', '6', '7', '8', '9'][d as int]
}

pub open spec fn is_digit_char(c: char) -> bool {
    '0' <= c && c <= '9'
}

pub open spec fn digit_value(c: char) -> nat {
    (c as u32 - '0' as u32) as nat
}

/// The decimal representation of `n`, as `Display` writes an unsigned integer.
pub open spec fn decimal(n: nat) -> Seq<char>
    decreases n,
{
    if n < 10 {
        seq![digit_char(n)]
    } else {
        decimal(n / 10).push(digit_char(n % 10))
    }
}

/// The value of a string of decimal digits.
pub open spec fn digits_value(s: Seq<char>) -> nat
    decreases s.len(),
{
    if s.len() == 0 {
        0
    } else {
        digits_value(s.drop_last()) * 10 + digit_value(s.last())
    }
}

pub open spec fn all_digits(s: Seq<char>) -> bool {
    forall|k: int| 0 <= k < s.len() ==> is_digit_char(#[trigger] s[k])
}

/// What `str::parse::<usize>` accepts: an optional `+`, then at least one
/// decimal digit, with a value that fits in `usize`.
pub open spec fn parse_usize(s: Seq<char>) -> Option<nat> {
    let d = if s.len() > 0 && s[0] == '+' {
        s.drop_first()
    } else {
        s
    };
    if d.len() == 0 || !all_digits(d) || digits_value(d) > usize::MAX {
        None
    } else {
        Some(digits_value(d))
    }
}

proof fn lemma_digit_char(d: nat)
    requires
        d < 10,
    ensures
        is_digit_char(digit_char(d)),
        digit_value(digit_char(d)) == d,
{
    let ds = seq!['0', '1', '2', '3', '4', '5', '6', '7', '8', '9'];
    assert(digit_char(d) == ds[d as int]);
}

/// The decimal digits of `n` read back as a number give `n`.
pub proof fn lemma_decimal_digits(n: nat)
    ensures
        decimal(n).len() > 0,
        all_digits(decimal(n)),
        digits_value(decimal(n)) == n,
    decreases n,
{
    if n < 10 {
        lemma_digit_char(n);
        assert(decimal(n).drop_last() =~= Seq::<char>::empty());
        assert(digits_value(decimal(n).drop_last()) == 0);
        assert(decimal(n).last() == digit_char(n));
    } else {
        lemma_decimal_digits(n / 10);
        lemma_digit_char(n % 10);
        let s = decimal(n);
        assert(s.drop_last() =~= decimal(n / 10));
        assert(s.last() == digit_char(n % 10));
        vstd::arithmetic::div_mod::lemma_fundamental_div_mod(n as int, 10);
        assert(digits_value(s) == digits_value(s.drop_last()) * 10 + digit_value(s.last()));
        assert forall|k: int| 0 <= k < s.len() implies is_digit_char(#[trigger] s[k]) by {
            if k < s.len() - 1 {
                assert(s[k] == decimal(n / 10)[k]);
            }
        }
    }
}

/// `usize::parse` reads back what `decimal` writes.
pub proof fn lemma_parse_decimal(n: nat)
    requires
        n <= usize::MAX,
    ensures
        parse_usize(decimal(n)) == Some(n),
{
    lemma_decimal_digits(n);
    let s = decimal(n);
    assert(is_digit_char(s[0]));
}

proof fn lemma_digits_value_prefix(s: Seq<char>, k: int)
    requires
        0 <= k <= s.len(),
        all_digits(s),
    ensures
        digits_value(s.take(k)) <= digits_value(s),
    decreases s.len() - k,
{
    if k < s.len() {
        lemma_digits_value_prefix(s, k + 1);
        let t = s.take(k + 1);
        assert(t.drop_last() =~= s.take(k));
    } else {
        assert(s.take(k) =~= s);
    }
}

/// The character for a digit value below ten.
pub fn digit_to_char(d: usize) -> (c: char)
    requires
        d < 10,
    ensures
        c == digit_char(d as nat),
{
    let ds: [char; 10] = ['0', '1', '2', '3', '4', '5', '6', '7', '8', '9'];
    assert(ds@ =~= seq!['0', '1', '2', '3', '4', '5', '6', '7', '8', '9']);
    ds[d]
}

/// The decimal representation of `n`.
pub fn decimal_chars(n: usize) -> (r: Vec<char>)
    ensures
        r@ == decimal(n as nat),
    decreases n,
{
    if n < 10 {
        vec![digit_to_char(n)]
    } else {
        let mut v = decimal_chars(n / 10);
        v.push(digit_to_char(n % 10));
        v
    }
}

/// `str::parse::<usize>`: the value, or `None` when the text is not one.
pub fn parse_usize_chars(s: &[char]) -> (r: Option<usize>)
    ensures
        match r {
            Some(v) => parse_usize(s@) == Some(v as nat),
            None => parse_usize(s@) is None,
        },
{
    let start: usize = if s.len() > 0 && s[0] == '+' {
        1
    } else {
        0
    };
    let ghost d = if s@.len() > 0 && s@[0] == '+' {
        s@.drop_first()
    } else {
        s@
    };
    assert(d =~= s@.skip(start as int));
    if start >= s.len() {
        return None;
    }
    let mut value: usize = 0;
    let mut i: usize = start;
    assert(d.take(0) =~= Seq::<char>::empty());
    while i < s.len()
        invariant
            start <= i <= s@.len(),
            d =~= s@.skip(start as int),
            d == (if s@.len() > 0 && s@[0] == '+' {
                s@.drop_first()
            } else {
                s@
            }),
            all_digits(d.take(i - start)),
            value as nat == digits_value(d.take(i - start)),
        decreases s@.len() - i,
    {
        let c = s[i];
        if !('0' <= c && c <= '9') {
            assert(d[i - start] == c);
            assert(!is_digit_char(d[i - start]));
            assert(!all_digits(d));
            return None;
        }
        let dv = (c as u32 - '0' as u32) as usize;
        let ghost t = d.take(i - start + 1);
        assert(t.drop_last() =~= d.take(i - start));
        assert(t.last() == c);
        assert(d[i - start] == c);
        match value.checked_mul(10) {
            Some(v10) => match v10.checked_add(dv) {
                Some(v) => {
                    value = v;
                },
                None => {
                    proof {
                        assert(digit_value(c) == dv);
                        assert(digits_value(t) == digits_value(d.take(i - start)) * 10 + digit_value(c));
                        if all_digits(d) {
                            lemma_digits_value_prefix(d, i - start + 1);
                        }
                    }
                    return None;
                },
            },
            None => {
                proof {
                    if all_digits(d) {
                        lemma_digits_value_prefix(d, i - start + 1);
                        assert(digits_value(t) >= value * 10) by (nonlinear_arith)
                            requires
                                digits_value(t) == digits_value(d.take(i - start)) * 10 + digit_value(c),
                                value as nat == digits_value(d.take(i - start)),
                        ;
                    }
                }
                return None;
            },
        }
        i = i + 1;
        assert(d.take(i - start) == t);
        assert(all_digits(t)) by {
            assert forall|k: int| 0 <= k < t.len() implies is_digit_char(#[trigger] t[k]) by {
                if k < t.len() - 1 {
                    assert(t[k] == d.take(i - start - 1)[k]);
                }
            }
        }
    }
    assert(d.take(s@.len() - start) =~= d);
    Some(value)
}

/// `str::trim` leaves nothing: the text is empty or all whitespace.
pub open spec fn is_blank(s: Seq<char>) -> bool {
    forall|k: int| 0 <= k < s.len() ==> is_white_space(#[trigger] s[k])
}

/// Whether `str::trim` would leave an empty string.
pub fn is_blank_chars(s: &[char]) -> (r: bool)
    ensures
        r == is_blank(s@),
{
    let mut i: usize = 0;
    while i < s.len()
        invariant
            0 <= i <= s@.len(),
            forall|k: int| 0 <= k < i ==> is_white_space(#[trigger] s@[k]),
        decreases s@.len() - i,
    {
        if !char_is_whitespace(s[i]) {
            return false;
        }
        i = i + 1;
    }
    true
}

/// Whether two character sequences are equal.
pub fn chars_equal(a: &[char], b: &[char]) -> (r: bool)
    ensures
        r == (a@ == b@),
{
    if a.len() != b.len() {
        return false;
    }
    let mut i: usize = 0;
    while i < a.len()
        invariant
            0 <= i <= a@.len(),
            a@.len() == b@.len(),
            forall|k: int| 0 <= k < i ==> a@[k] == b@[k],
        decreases a@.len() - i,
    {
        if a[i] != b[i] {
            return false;
        }
        i = i + 1;
    }
    assert(a@ =~= b@);
    true
}

/// The characters of `v` from position `from` on.
pub fn suffix_from(v: &[char], from: usize) -> (r: Vec<char>)
    requires
        from <= v@.len(),
    ensures
        r@ == v@.skip(from as int),
{
    let mut r: Vec<char> = Vec::new();
    let mut i: usize = from;
    while i < v.len()
        invariant
            from <= i <= v@.len(),
            r@ == v@.subrange(from as int, i as int),
        decreases v@.len() - i,
    {
        r.push(v[i]);
        i = i + 1;
        assert(r@ =~= v@.subrange(from as int, i as int));
    }
    assert(r@ =~= v@.skip(from as int));
    r
}

/// `s` without its leading whitespace (`str::trim_start`).
pub open spec fn trim_start_seq(s: Seq<char>) -> Seq<char>
    decreases s.len(),
{
    if s.len() > 0 && is_white_space(s[0]) {
        trim_start_seq(s.drop_first())
    } else {
        s
    }
}

/// `s` without its trailing whitespace (`str::trim_end`).
pub open spec fn trim_end_seq(s: Seq<char>) -> Seq<char>
    decreases s.len(),
{
    if s.len() > 0 && is_white_space(s.last()) {
        trim_end_seq(s.drop_last())
    } else {
        s
    }
}

/// `s` without whitespace at either end (`str::trim`).
pub open spec fn trim_seq(s: Seq<char>) -> Seq<char> {
    trim_end_seq(trim_start_seq(s))
}

/// `str::trim` on characters.
pub fn trim_chars(s: &[char]) -> (r: Vec<char>)
    ensures
        r@ == trim_seq(s@),
{
    let mut i: usize = 0;
    assert(s@.skip(0) =~= s@);
    while i < s.len() && char_is_whitespace(s[i])
        invariant
            0 <= i <= s@.len(),
            trim_start_seq(s@) == trim_start_seq(s@.skip(i as int)),
        decreases s@.len() - i,
    {
        assert(s@.skip(i as int).drop_first() =~= s@.skip(i + 1 as int));
        i = i + 1;
    }
    let mut j: usize = s.len();
    assert(s@.subrange(i as int, s@.len() as int) =~= s@.skip(i as int));
    while j > i && char_is_whitespace(s[j - 1])
        invariant
            i <= j <= s@.len(),
            trim_seq(s@) == trim_end_seq(s@.subrange(i as int, j as int)),
        decreases j - i,
    {
        assert(s@.subrange(i as int, j as int).drop_last() =~= s@.subrange(i as int, j - 1 as int));
        j = j - 1;
    }
    let mut r: Vec<char> = Vec::new();
    let mut k: usize = i;
    while k < j
        invariant
            i <= k <= j <= s@.len(),
            r@ == s@.subrange(i as int, k as int),
        decreases j - k,
    {
        r.push(s[k]);
        k = k + 1;
        assert(r@ =~= s@.subrange(i as int, k as int));
    }
    r
}

/// The first `n` characters of `s` (all of them when it is shorter).
pub fn take_chars(s: &[char], n: usize) -> (r: Vec<char>)
    ensures
        r@ == if s@.len() > n { s@.take(n as int) } else { s@ },
{
    let mut r: Vec<char> = Vec::new();
    let mut k: usize = 0;
    while k < s.len() && k < n
        invariant
            0 <= k <= s@.len(),
            k <= n,
            r@ == s@.take(k as int),
        decreases s@.len() - k,
    {
        r.push(s[k]);
        k = k + 1;
        assert(r@ =~= s@.take(k as int));
    }
    assert(s@.len() <= n ==> s@.take(s@.len() as int) =~= s@);
    r
}

/// Appends `t` to `s`.
pub(crate) fn push_str(s: &mut String, t: &str)
    ensures
        final(s)@ == old(s)@ + t@,
{
    s.append(t);
}

} // verus!
