//! Styling of a record's text for display: keyword matches are marked for
//! emphasis, digits and separator punctuation are marked for coloring, and
//! the styled pieces are split at line breaks. The terminal widgets turn
//! these pieces into styled spans; everything before that step is plain
//! text logic and lives here.

use vstd::prelude::*;

use crate::strutil::lower_of;
use crate::strutil::split_char;
use crate::strutil::split_char_spec;
use crate::strutil::split_commas_spec;
use crate::strutil::find_from;
use crate::strutil::find_sub;
use crate::strutil::lemma_find_from_bounds;
use crate::strutil::to_lowercase;

verus! {

/// How one piece of text should be drawn.
#[derive(Clone, Copy, Debug, PartialEq, Eq, Structural)]
pub enum TextStyle {
    Plain,
    Highlight,
    Digit,
    Separator,
}

/// Whether `c` counts as numeric, as `char::is_numeric` decides it. A
/// function of the character alone.
pub uninterp spec fn is_numeric_of(c: char) -> bool;

/// Relies on `char::is_numeric`: the Unicode numeric property of `c`.
#[verifier::external_body]
fn is_numeric_char(c: char) -> (r: bool)
    ensures
        r == is_numeric_of(c),
{
    c.is_numeric()
}

/// The punctuation the viewer colors as separators.
pub open spec fn is_separator_char(c: char) -> bool {
    c == '/' || c == '\\' || c == '-' || c == ':' || c == ',' || c == '"' || c == '.' || c == '['
        || c == ']' || c == '(' || c == ')' || c == '{' || c == '}'
}

/// The two character classes the viewer colors inside plain text.
#[derive(Clone, Copy)]
pub enum CharClass {
    Numeric,
    Separator,
}

/// The predicate a character class stands for.
pub open spec fn char_class_pred(class: CharClass, c: char) -> bool {
    match class {
        CharClass::Numeric => is_numeric_of(c),
        CharClass::Separator => is_separator_char(c),
    }
}

fn char_class_test(class: CharClass, c: char) -> (r: bool)
    ensures
        r == char_class_pred(class, c),
{
    match class {
        CharClass::Numeric => is_numeric_char(c),
        CharClass::Separator => {
            c == '/' || c == '\\' || c == '-' || c == ':' || c == ',' || c == '"' || c == '.' || c
                == '[' || c == ']' || c == '(' || c == ')' || c == '{' || c == '}'
        },
    }
}

/// `x` clamped from above to `hi`.
pub open spec fn clamp_to(x: int, hi: int) -> int {
    if x > hi {
        hi
    } else {
        x
    }
}

/// The keyword match positions, found one after another: each keyword is
/// looked up, case-folded, in the text after the previous match, and marks
/// the next `keyword length` characters from where it was found. Keywords
/// that are empty or not found mark nothing.
pub open spec fn keyword_spans(text: Seq<char>, kws: Seq<Seq<char>>, from: int) -> Seq<(int, int)>
    decreases kws.len(),
{
    if kws.len() == 0 {
        Seq::empty()
    } else if kws[0].len() == 0 {
        keyword_spans(text, kws.skip(1), from)
    } else {
        let p = find_from(lower_of(text.skip(from)), lower_of(kws[0]), 0);
        if p < 0 {
            keyword_spans(text, kws.skip(1), from)
        } else {
            let b = clamp_to(from + p, text.len() as int);
            let e = clamp_to(b + kws[0].len(), text.len() as int);
            seq![(b, e)] + keyword_spans(text, kws.skip(1), e)
        }
    }
}

proof fn lemma_keyword_spans_bounds(text: Seq<char>, kws: Seq<Seq<char>>, from: int)
    requires
        0 <= from <= text.len(),
    ensures
        forall|k: int|
            0 <= k < keyword_spans(text, kws, from).len() ==> from <= (#[trigger] keyword_spans(
                text,
                kws,
                from,
            )[k]).0 <= keyword_spans(text, kws, from)[k].1 <= text.len(),
        forall|k: int|
            0 <= k && k + 1 < keyword_spans(text, kws, from).len() ==> (#[trigger] keyword_spans(
                text,
                kws,
                from,
            )[k]).1 <= keyword_spans(text, kws, from)[k + 1].0,
    decreases kws.len(),
{
    if kws.len() == 0 {
    } else if kws[0].len() == 0 {
        lemma_keyword_spans_bounds(text, kws.skip(1), from);
        let out = keyword_spans(text, kws, from);
        let rest = keyword_spans(text, kws.skip(1), from);
        assert forall|k: int| 0 <= k < out.len() implies from <= (#[trigger] out[k]).0 <= out[k].1
            <= text.len() by {
            assert(out[k] == rest[k]);
        }
        assert forall|k: int| 0 <= k && k + 1 < out.len() implies (#[trigger] out[k]).1 <= out[k
            + 1].0 by {
            assert(out[k] == rest[k]);
            assert(out[k + 1] == rest[k + 1]);
        }
    } else {
        let p = find_from(lower_of(text.skip(from)), lower_of(kws[0]), 0);
        if p < 0 {
            lemma_keyword_spans_bounds(text, kws.skip(1), from);
            let out = keyword_spans(text, kws, from);
            let rest = keyword_spans(text, kws.skip(1), from);
            assert forall|k: int| 0 <= k < out.len() implies from <= (#[trigger] out[k]).0
                <= out[k].1 <= text.len() by {
                assert(out[k] == rest[k]);
            }
            assert forall|k: int| 0 <= k && k + 1 < out.len() implies (#[trigger] out[k]).1
                <= out[k + 1].0 by {
                assert(out[k] == rest[k]);
                assert(out[k + 1] == rest[k + 1]);
            }
        } else {
            lemma_find_from_bounds(lower_of(text.skip(from)), lower_of(kws[0]), 0);
            let b = clamp_to(from + p, text.len() as int);
            let e = clamp_to(b + kws[0].len(), text.len() as int);
            lemma_keyword_spans_bounds(text, kws.skip(1), e);
            let out = keyword_spans(text, kws, from);
            let rest = keyword_spans(text, kws.skip(1), e);
            assert(out == seq![(b, e)] + rest);
            assert(out.len() == 1 + rest.len());
            assert forall|k: int| 0 <= k < out.len() implies from <= (#[trigger] out[k]).0
                <= out[k].1 <= text.len() by {
                if k > 0 {
                    assert(out[k] == rest[k - 1]);
                }
            }
            assert forall|k: int| 0 <= k && k + 1 < out.len() implies (#[trigger] out[k]).1
                <= out[k + 1].0 by {
                assert(out == seq![(b, e)] + rest);
                if k > 0 {
                    assert(out[k] == (seq![(b, e)] + rest)[k]);
                    assert((seq![(b, e)] + rest)[k] == rest[k - 1]);
                    assert(out[k + 1] == (seq![(b, e)] + rest)[k + 1]);
                    assert((seq![(b, e)] + rest)[k + 1] == rest[k]);
                } else {
                    assert(out[1] == (seq![(b, e)] + rest)[1]);
                    assert((seq![(b, e)] + rest)[1] == rest[0]);
                    assert(e <= rest[0].0);
                }
            }
        }
    }
}

/// The text cut into styled pieces by the match positions: plain text
/// between matches, emphasized text inside them.
pub open spec fn render_spans(text: Seq<char>, pos: Seq<(int, int)>, prev: int) -> Seq<
    (Seq<char>, TextStyle),
>
    decreases pos.len(),
{
    if pos.len() == 0 {
        seq![(text.skip(prev), TextStyle::Plain)]
    } else {
        seq![
            (text.subrange(prev, pos[0].0), TextStyle::Plain),
            (text.subrange(pos[0].0, pos[0].1), TextStyle::Highlight),
        ] + render_spans(text, pos.skip(1), pos[0].1)
    }
}

proof fn lemma_render_spans_len(text: Seq<char>, pos: Seq<(int, int)>, prev: int)
    ensures
        render_spans(text, pos, prev).len() == 2 * pos.len() + 1,
    decreases pos.len(),
{
    if pos.len() != 0 {
        lemma_render_spans_len(text, pos.skip(1), pos[0].1);
    }
}

/// What marking the search matches yields: the comma-separated keywords
/// are located in order, case-insensitively, and the text is cut into
/// plain and emphasized pieces whose concatenation is the text.
pub open spec fn search_match_spans(text: Seq<char>, keywords: Seq<char>) -> Seq<
    (Seq<char>, TextStyle),
> {
    render_spans(text, keyword_spans(text, split_commas_spec(keywords), 0), 0)
}

/// Cuts `text` into plain and emphasized pieces around the case-insensitive
/// occurrences of the comma-separated `keywords`, located one after
/// another.
pub fn highlight_search_matches(text: &str, keywords: &str) -> (r: Vec<(String, TextStyle)>)
    ensures
        r@.len() == search_match_spans(text@, keywords@).len(),
        forall|k: int|
            0 <= k < r@.len() ==> (#[trigger] r@[k]).0@ == search_match_spans(text@, keywords@)[k].0
                && r@[k].1 == search_match_spans(text@, keywords@)[k].1,
{
    let len = text.unicode_len();
    let kws = split_char(keywords, ',');
    let ghost kv = split_commas_spec(keywords@);
    let nk = kws.len();
    let mut pos: Vec<(usize, usize)> = Vec::new();
    let mut from: usize = 0;
    let mut k: usize = 0;
    proof {
        assert(kv.skip(0) =~= kv);
        assert(pos@.map_values(|q: (usize, usize)| (q.0 as int, q.1 as int)) + keyword_spans(
            text@,
            kv,
            0,
        ) =~= keyword_spans(text@, kv, 0));
    }
    while k < nk
        invariant
            0 <= k <= nk,
            nk == kws@.len(),
            kws.deep_view() == kv,
            0 <= from <= len,
            len == text@.len(),
            pos@.map_values(|q: (usize, usize)| (q.0 as int, q.1 as int)) + keyword_spans(
                text@,
                kv.skip(k as int),
                from as int,
            ) == keyword_spans(text@, kv, 0),
            forall|j: int|
                0 <= j < pos@.len() ==> (#[trigger] pos@[j]).0 <= pos@[j].1 <= len && (j + 1
                    < pos@.len() ==> pos@[j].1 <= pos@[j + 1].0) && (j == pos@.len() - 1
                    ==> pos@[j].1 <= from),
        decreases nk - k,
    {
        proof {
            assert(kv.skip(k as int)[0] == kv[k as int]);
            assert(kv.skip(k as int).skip(1) =~= kv.skip(k + 1));
            assert(kws.deep_view()[k as int] == kws@[k as int]@);
        }
        let kw = &kws[k];
        let kw_len = kw.as_str().unicode_len();
        if kw_len > 0 {
            let suffix = text.substring_char(from, len);
            let hay = to_lowercase(suffix);
            let needle = to_lowercase(kw.as_str());
            match find_sub(hay.as_str(), needle.as_str()) {
                None => {},
                Some(p) => {
                    proof {
                        lemma_find_from_bounds(lower_of(text@.skip(from as int)), lower_of(kws@[k as int]@), 0);
                    }
                    let b = if p >= len - from {
                        len
                    } else {
                        from + p
                    };
                    let e = if kw_len >= len - b {
                        len
                    } else {
                        b + kw_len
                    };
                    let ghost old_pos = pos@;
                    pos.push((b, e));
                    proof {
                        assert(pos@.map_values(|q: (usize, usize)| (q.0 as int, q.1 as int))
                            =~= old_pos.map_values(|q: (usize, usize)| (q.0 as int, q.1 as int)).push(
                            (b as int, e as int),
                        ));
                        assert((old_pos.map_values(|q: (usize, usize)| (q.0 as int, q.1 as int)).push(
                            (b as int, e as int),
                        )) + keyword_spans(text@, kv.skip(k + 1), e as int) =~= old_pos.map_values(
                            |q: (usize, usize)| (q.0 as int, q.1 as int),
                        ) + (seq![(b as int, e as int)] + keyword_spans(text@, kv.skip(k + 1), e as int)));
                    }
                    from = e;
                },
            }
        }
        k = k + 1;
    }
    proof {
        assert(kv.skip(nk as int) =~= Seq::<Seq<char>>::empty());
        assert(keyword_spans(text@, kv.skip(nk as int), from as int) =~= Seq::<(int, int)>::empty());
        assert(pos@.map_values(|q: (usize, usize)| (q.0 as int, q.1 as int)) + Seq::<(
            int,
            int,
        )>::empty() =~= pos@.map_values(|q: (usize, usize)| (q.0 as int, q.1 as int)));
    }
    let ghost pv = pos@.map_values(|q: (usize, usize)| (q.0 as int, q.1 as int));
    let np = pos.len();
    let mut r: Vec<(String, TextStyle)> = Vec::new();
    let mut prev: usize = 0;
    let mut t: usize = 0;
    proof {
        assert(pv.skip(0) =~= pv);
        lemma_render_spans_len(text@, pv, 0);
        assert(render_spans(text@, pv, 0).take(0) =~= Seq::<(Seq<char>, TextStyle)>::empty());
        assert(Seq::<(Seq<char>, TextStyle)>::empty() + render_spans(text@, pv, 0)
            =~= render_spans(text@, pv, 0));
    }
    while t < np
        invariant
            0 <= t <= np,
            np == pos@.len(),
            pv == pos@.map_values(|q: (usize, usize)| (q.0 as int, q.1 as int)),
            len == text@.len(),
            0 <= prev <= len,
            t < np ==> prev <= pos@[t as int].0,
            forall|j: int|
                0 <= j < pos@.len() ==> (#[trigger] pos@[j]).0 <= pos@[j].1 <= len && (j + 1
                    < pos@.len() ==> pos@[j].1 <= pos@[j + 1].0),
            r@.len() + 2 * (np - t) + 1 == render_spans(text@, pv, 0).len(),
            forall|j: int|
                0 <= j < r@.len() ==> (#[trigger] r@[j]).0@ == render_spans(text@, pv, 0)[j].0
                    && r@[j].1 == render_spans(text@, pv, 0)[j].1,
            render_spans(text@, pv, 0) =~= render_spans(text@, pv, 0).take(r@.len() as int)
                + render_spans(text@, pv.skip(t as int), prev as int),
        decreases np - t,
    {
        proof {
            assert(pv.skip(t as int)[0] == pv[t as int]);
            assert(pv.skip(t as int).skip(1) =~= pv.skip(t + 1));
        }
        let (b, e) = (pos[t].0, pos[t].1);
        let plain = text.substring_char(prev, b).to_owned();
        let hit = text.substring_char(b, e).to_owned();
        let ghost before = r@;
        r.push((plain, TextStyle::Plain));
        r.push((hit, TextStyle::Highlight));
        proof {
            let full = render_spans(text@, pv, 0);
            assert(render_spans(text@, pv.skip(t as int), prev as int) == seq![
                (text@.subrange(prev as int, b as int), TextStyle::Plain),
                (text@.subrange(b as int, e as int), TextStyle::Highlight),
            ] + render_spans(text@, pv.skip(t + 1), e as int));
            assert(full.take(before.len() as int + 2) =~= full.take(before.len() as int) + seq![
                full[before.len() as int],
                full[before.len() as int + 1],
            ]);
            assert(full[before.len() as int] == (
                text@.subrange(prev as int, b as int),
                TextStyle::Plain,
            ));
            assert(full[before.len() as int + 1] == (
                text@.subrange(b as int, e as int),
                TextStyle::Highlight,
            ));
            assert(full =~= full.take(r@.len() as int) + render_spans(
                text@,
                pv.skip(t + 1),
                e as int,
            ));
        }
        prev = e;
        t = t + 1;
    }
    let tail = text.substring_char(prev, len).to_owned();
    proof {
        assert(pv.skip(np as int) =~= Seq::<(int, int)>::empty());
        assert(render_spans(text@, pv.skip(np as int), prev as int) == seq![
            (text@.skip(prev as int), TextStyle::Plain),
        ]);
        let full = render_spans(text@, pv, 0);
        assert(full =~= full.take(r@.len() as int) + seq![
            (text@.skip(prev as int), TextStyle::Plain),
        ]);
        assert(full[r@.len() as int] == (text@.skip(prev as int), TextStyle::Plain));
    }
    r.push((tail, TextStyle::Plain));
    r
}

/// The first index of `s` whose character is in the class, or `s.len()`.
pub open spec fn first_class_idx(s: Seq<char>, class: CharClass) -> int
    decreases s.len(),
{
    if s.len() == 0 {
        0
    } else if char_class_pred(class, s[0]) {
        0
    } else {
        1 + first_class_idx(s.skip(1), class)
    }
}

proof fn lemma_first_class_at(s: Seq<char>, class: CharClass, k: int)
    requires
        0 <= k <= s.len(),
        forall|j: int| 0 <= j < k ==> !char_class_pred(class, s[j]),
        k < s.len() ==> char_class_pred(class, s[k]),
    ensures
        first_class_idx(s, class) == k,
    decreases s.len(),
{
    if s.len() != 0 && !char_class_pred(class, s[0]) {
        assert(forall|j: int| 0 <= j < k - 1 ==> !char_class_pred(class, #[trigger] s.skip(1)[j]));
        lemma_first_class_at(s.skip(1), class, k - 1);
    }
}

/// One styled piece cut around its class characters: each such character
/// becomes its own piece styled `ht`, the text between keeps `style`.
pub open spec fn split_at_class(s: Seq<char>, style: TextStyle, ht: TextStyle, class: CharClass) -> Seq<
    (Seq<char>, TextStyle),
>
    decreases s.len(),
{
    let i = first_class_idx(s, class);
    if !(0 <= i < s.len()) {
        seq![(s, style)]
    } else {
        seq![(s.take(i), style), (seq![s[i]], ht)] + split_at_class(s.skip(i + 1), style, ht, class)
    }
}

/// All styled pieces cut around class characters; pieces already
/// emphasized as matches are left whole.
pub open spec fn chars_highlighted(
    spans: Seq<(Seq<char>, TextStyle)>,
    ht: TextStyle,
    class: CharClass,
) -> Seq<(Seq<char>, TextStyle)>
    decreases spans.len(),
{
    if spans.len() == 0 {
        Seq::empty()
    } else {
        (if spans[0].1 is Highlight {
            seq![spans[0]]
        } else {
            split_at_class(spans[0].0, spans[0].1, ht, class)
        }) + chars_highlighted(spans.skip(1), ht, class)
    }
}

/// Cuts one piece around its class characters.
fn split_span(s: &str, style: TextStyle, ht: TextStyle, class: CharClass) -> (r: Vec<
    (String, TextStyle),
>)
    ensures
        r@.len() == split_at_class(s@, style, ht, class).len(),
        forall|k: int|
            0 <= k < r@.len() ==> (#[trigger] r@[k]).0@ == split_at_class(s@, style, ht, class)[k].0
                && r@[k].1 == split_at_class(s@, style, ht, class)[k].1,
{
    let len = s.unicode_len();
    let ghost full = split_at_class(s@, style, ht, class);
    let mut r: Vec<(String, TextStyle)> = Vec::new();
    let mut seg_start: usize = 0;
    let mut i: usize = 0;
    proof {
        assert(s@.skip(0) =~= s@);
    }
    while i < len
        invariant
            0 <= seg_start <= i <= len,
            len == s@.len(),
            full == split_at_class(s@, style, ht, class),
            forall|j: int| seg_start <= j < i ==> !char_class_pred(class, s@[j]),
            r@.len() <= full.len(),
            full == full.take(r@.len() as int) + split_at_class(
                s@.skip(seg_start as int),
                style,
                ht,
                class,
            ),
            forall|k: int|
                0 <= k < r@.len() ==> (#[trigger] r@[k]).0@ == full[k].0 && r@[k].1 == full[k].1,
        decreases len - i,
    {
        let c = s.get_char(i);
        if char_class_test(class, c) {
            let ghost suffix = s@.skip(seg_start as int);
            proof {
                assert(forall|j: int|
                    0 <= j < i - seg_start ==> #[trigger] suffix[j] == s@[seg_start + j]
                        && !char_class_pred(class, suffix[j]));
                lemma_first_class_at(suffix, class, i - seg_start);
                assert(suffix.take(i - seg_start) =~= s@.subrange(seg_start as int, i as int));
                assert(seq![suffix[i - seg_start]] =~= s@.subrange(i as int, i + 1));
                assert(suffix.skip(i - seg_start + 1) =~= s@.skip(i + 1));
            }
            let piece = s.substring_char(seg_start, i).to_owned();
            let hit = s.substring_char(i, i + 1).to_owned();
            let ghost before = r@;
            r.push((piece, style));
            r.push((hit, ht));
            proof {
                let rest = split_at_class(s@.skip(i + 1), style, ht, class);
                assert(split_at_class(suffix, style, ht, class) == seq![
                    (s@.subrange(seg_start as int, i as int), style),
                    (s@.subrange(i as int, i + 1), ht),
                ] + rest);
                assert(full.take(before.len() as int + 2) =~= full.take(before.len() as int)
                    + seq![full[before.len() as int], full[before.len() as int + 1]]);
                assert(full[before.len() as int] == (
                    s@.subrange(seg_start as int, i as int),
                    style,
                ));
                assert(full[before.len() as int + 1] == (s@.subrange(i as int, i + 1), ht));
                assert(full =~= full.take(r@.len() as int) + rest);
            }
            seg_start = i + 1;
        }
        i = i + 1;
    }
    let ghost suffix = s@.skip(seg_start as int);
    proof {
        assert(forall|j: int|
            0 <= j < len - seg_start ==> #[trigger] suffix[j] == s@[seg_start + j]
                && !char_class_pred(class, suffix[j]));
        lemma_first_class_at(suffix, class, len - seg_start);
        assert(split_at_class(suffix, style, ht, class) == seq![(suffix, style)]);
        assert(full =~= full.take(r@.len() as int) + seq![(suffix, style)]);
        assert(full[r@.len() as int] == (suffix, style));
    }
    let tail = s.substring_char(seg_start, len).to_owned();
    r.push((tail, style));
    r
}

/// Marks every character of the chosen class inside the not-yet-emphasized
/// pieces with `highlight_type`, leaving match pieces whole.
pub fn highlight_chars(condition: CharClass, spans: Vec<(String, TextStyle)>, highlight_type: TextStyle) -> (r: Vec<
    (String, TextStyle),
>)
    ensures
        ({
            let out = chars_highlighted(
                spans@.map_values(|p: (String, TextStyle)| (p.0@, p.1)),
                highlight_type,
                condition,
            );
            r@.len() == out.len() && (forall|k: int|
                0 <= k < r@.len() ==> (#[trigger] r@[k]).0@ == out[k].0 && r@[k].1 == out[k].1)
        }),
{
    let ghost sv = spans@.map_values(|p: (String, TextStyle)| (p.0@, p.1));
    let ghost full = chars_highlighted(sv, highlight_type, condition);
    let n = spans.len();
    let mut r: Vec<(String, TextStyle)> = Vec::new();
    let mut i: usize = 0;
    proof {
        assert(sv.skip(0) =~= sv);
        assert(r@.map_values(|p: (String, TextStyle)| (p.0@, p.1)) + chars_highlighted(
            sv,
            highlight_type,
            condition,
        ) =~= full);
    }
    while i < n
        invariant
            0 <= i <= n,
            n == spans@.len(),
            sv == spans@.map_values(|p: (String, TextStyle)| (p.0@, p.1)),
            full == chars_highlighted(sv, highlight_type, condition),
            r@.map_values(|p: (String, TextStyle)| (p.0@, p.1)) + chars_highlighted(
                sv.skip(i as int),
                highlight_type,
                condition,
            ) == full,
        decreases n - i,
    {
        proof {
            assert(sv.skip(i as int)[0] == sv[i as int]);
            assert(sv.skip(i as int).skip(1) =~= sv.skip(i + 1));
            assert(sv[i as int] == (spans@[i as int].0@, spans@[i as int].1));
        }
        let ghost before = r@.map_values(|p: (String, TextStyle)| (p.0@, p.1));
        let is_highlight = match spans[i].1 {
            TextStyle::Highlight => true,
            _ => false,
        };
        if is_highlight {
            let piece = spans[i].0.clone();
            let st = spans[i].1;
            r.push((piece, st));
            proof {
                assert(r@.map_values(|p: (String, TextStyle)| (p.0@, p.1)) =~= before.push(
                    sv[i as int],
                ));
                assert(before.push(sv[i as int]) =~= before + seq![sv[i as int]]);
                assert((before + seq![sv[i as int]]) + chars_highlighted(
                    sv.skip(i + 1),
                    highlight_type,
                    condition,
                ) =~= before + (seq![sv[i as int]] + chars_highlighted(
                    sv.skip(i + 1),
                    highlight_type,
                    condition,
                )));
            }
        } else {
            let pieces = split_span(spans[i].0.as_str(), spans[i].1, highlight_type, condition);
            let ghost pv2 = split_at_class(sv[i as int].0, sv[i as int].1, highlight_type, condition);
            let mut pieces = pieces;
            proof {
                assert(pieces@.map_values(|p: (String, TextStyle)| (p.0@, p.1)) =~= pv2);
            }
            r.append(&mut pieces);
            proof {
                assert(r@.map_values(|p: (String, TextStyle)| (p.0@, p.1)) =~= before + pv2);
                assert((before + pv2) + chars_highlighted(sv.skip(i + 1), highlight_type, condition)
                    =~= before + (pv2 + chars_highlighted(sv.skip(i + 1), highlight_type, condition)));
            }
        }
        i = i + 1;
    }
    proof {
        assert(sv.skip(n as int) =~= Seq::<(Seq<char>, TextStyle)>::empty());
        assert(chars_highlighted(sv.skip(n as int), highlight_type, condition)
            =~= Seq::<(Seq<char>, TextStyle)>::empty());
        assert(r@.map_values(|p: (String, TextStyle)| (p.0@, p.1)) + Seq::<(
            Seq<char>,
            TextStyle,
        )>::empty() =~= r@.map_values(|p: (String, TextStyle)| (p.0@, p.1)));
        assert forall|k: int| 0 <= k < r@.len() implies (#[trigger] r@[k]).0@ == full[k].0
            && r@[k].1 == full[k].1 by {
            assert(r@.map_values(|p: (String, TextStyle)| (p.0@, p.1))[k] == full[k]);
        }
    }
    r
}

/// `t` without one trailing carriage return.
pub open spec fn strip_cr(t: Seq<char>) -> Seq<char> {
    if t.len() > 0 && t[t.len() - 1] == '\r' {
        t.take(t.len() - 1)
    } else {
        t
    }
}

/// The display lines of `s`: split at newlines, one optional final newline
/// producing no extra line, each line without its trailing carriage
/// return; empty text has no lines.
pub open spec fn split_lines_spec(s: Seq<char>) -> Seq<Seq<char>> {
    if s.len() == 0 {
        Seq::empty()
    } else {
        let parts = split_char_spec(s, '\n');
        let kept = if s[s.len() - 1] == '\n' {
            parts.drop_last()
        } else {
            parts
        };
        kept.map_values(|t: Seq<char>| strip_cr(t))
    }
}

/// Lines of one styled piece, each marked with whether it starts a new
/// display row: the first continues the current row.
pub open spec fn mark_lines(lines: Seq<Seq<char>>, style: TextStyle) -> Seq<
    (Seq<char>, TextStyle, bool),
> {
    Seq::new(lines.len(), |i: int| (lines[i], style, i > 0))
}

/// All styled pieces, split at line breaks, in order.
pub open spec fn lined_spans(spans: Seq<(Seq<char>, TextStyle)>) -> Seq<
    (Seq<char>, TextStyle, bool),
>
    decreases spans.len(),
{
    if spans.len() == 0 {
        Seq::empty()
    } else {
        mark_lines(split_lines_spec(spans[0].0), spans[0].1) + lined_spans(spans.skip(1))
    }
}

fn strip_cr_exec(t: &str) -> (r: String)
    ensures
        r@ == strip_cr(t@),
{
    let n = t.unicode_len();
    if n > 0 && t.get_char(n - 1) == '\r' {
        t.substring_char(0, n - 1).to_owned()
    } else {
        t.to_owned()
    }
}

fn lines_of_span(s: &str, style: TextStyle) -> (r: Vec<(String, TextStyle, bool)>)
    ensures
        r@.map_values(|p: (String, TextStyle, bool)| (p.0@, p.1, p.2)) == mark_lines(
            split_lines_spec(s@),
            style,
        ),
{
    let mut r: Vec<(String, TextStyle, bool)> = Vec::new();
    if s.is_empty() {
        proof {
            assert(mark_lines(split_lines_spec(s@), style) =~= Seq::<(
                Seq<char>,
                TextStyle,
                bool,
            )>::empty());
            assert(r@.map_values(|p: (String, TextStyle, bool)| (p.0@, p.1, p.2)) =~= Seq::<(
                Seq<char>,
                TextStyle,
                bool,
            )>::empty());
        }
        return r;
    }
    let mut parts = split_char(s, '\n');
    let len = s.unicode_len();
    if s.get_char(len - 1) == '\n' {
        proof {
            assert(split_char_spec(s@, '\n').len() >= 1);
            assert(parts@.len() == parts.deep_view().len());
        }
        let ghost before = parts.deep_view();
        let _ = parts.pop();
        proof {
            assert(parts.deep_view() =~= before.drop_last());
        }
    }
    let ghost lines = split_lines_spec(s@);
    proof {
        assert(parts.deep_view().map_values(|t: Seq<char>| strip_cr(t)) == lines);
    }
    let m = parts.len();
    let mut j: usize = 0;
    proof {
        assert(lines.len() == m);
        assert(r@.map_values(|p: (String, TextStyle, bool)| (p.0@, p.1, p.2)) =~= mark_lines(
            lines,
            style,
        ).take(0));
    }
    while j < m
        invariant
            0 <= j <= m,
            m == parts@.len(),
            lines.len() == m,
            lines == parts.deep_view().map_values(|t: Seq<char>| strip_cr(t)),
            r@.map_values(|p: (String, TextStyle, bool)| (p.0@, p.1, p.2)) == mark_lines(
                lines,
                style,
            ).take(j as int),
        decreases m - j,
    {
        proof {
            assert(parts.deep_view()[j as int] == parts@[j as int]@);
            assert(lines[j as int] == strip_cr(parts@[j as int]@));
        }
        let stripped = strip_cr_exec(parts[j].as_str());
        let is_new = j > 0;
        let ghost before_r = r@.map_values(|p: (String, TextStyle, bool)| (p.0@, p.1, p.2));
        let ghost entry = (stripped@, style, is_new);
        r.push((stripped, style, is_new));
        proof {
            assert(r@.map_values(|p: (String, TextStyle, bool)| (p.0@, p.1, p.2)) =~= before_r.push(
                entry,
            ));
            assert(entry == mark_lines(lines, style)[j as int]);
            assert(mark_lines(lines, style).take(j + 1) =~= mark_lines(lines, style).take(
                j as int,
            ).push(mark_lines(lines, style)[j as int]));
        }
        j = j + 1;
    }
    proof {
        assert(mark_lines(lines, style).take(m as int) =~= mark_lines(lines, style));
    }
    r
}

/// Splits every styled piece at its line breaks, marking each piece that
/// must start a new display row.
pub fn split_spans_into_lines(spans: Vec<(String, TextStyle)>) -> (r: Vec<
    (String, TextStyle, bool),
>)
    ensures
        ({
            let out = lined_spans(spans@.map_values(|p: (String, TextStyle)| (p.0@, p.1)));
            r@.len() == out.len() && (forall|k: int|
                0 <= k < r@.len() ==> (#[trigger] r@[k]).0@ == out[k].0 && r@[k].1 == out[k].1
                    && r@[k].2 == out[k].2)
        }),
{
    let ghost sv = spans@.map_values(|p: (String, TextStyle)| (p.0@, p.1));
    let ghost full = lined_spans(sv);
    let n = spans.len();
    let mut r: Vec<(String, TextStyle, bool)> = Vec::new();
    let mut i: usize = 0;
    proof {
        assert(sv.skip(0) =~= sv);
        assert(r@.map_values(|p: (String, TextStyle, bool)| (p.0@, p.1, p.2)) + lined_spans(sv)
            =~= full);
    }
    while i < n
        invariant
            0 <= i <= n,
            n == spans@.len(),
            sv == spans@.map_values(|p: (String, TextStyle)| (p.0@, p.1)),
            full == lined_spans(sv),
            r@.map_values(|p: (String, TextStyle, bool)| (p.0@, p.1, p.2)) + lined_spans(
                sv.skip(i as int),
            ) == full,
        decreases n - i,
    {
        proof {
            assert(sv.skip(i as int)[0] == sv[i as int]);
            assert(sv.skip(i as int).skip(1) =~= sv.skip(i + 1));
            assert(sv[i as int] == (spans@[i as int].0@, spans@[i as int].1));
        }
        let ghost before = r@.map_values(|p: (String, TextStyle, bool)| (p.0@, p.1, p.2));
        let mut pieces = lines_of_span(spans[i].0.as_str(), spans[i].1);
        let ghost pv2 = mark_lines(split_lines_spec(sv[i as int].0), sv[i as int].1);
        r.append(&mut pieces);
        proof {
            assert(r@.map_values(|p: (String, TextStyle, bool)| (p.0@, p.1, p.2)) =~= before + pv2);
            assert((before + pv2) + lined_spans(sv.skip(i + 1)) =~= before + (pv2 + lined_spans(
                sv.skip(i + 1),
            )));
        }
        i = i + 1;
    }
    proof {
        assert(sv.skip(n as int) =~= Seq::<(Seq<char>, TextStyle)>::empty());
        assert(lined_spans(sv.skip(n as int)) =~= Seq::<(Seq<char>, TextStyle, bool)>::empty());
        assert(r@.map_values(|p: (String, TextStyle, bool)| (p.0@, p.1, p.2)) + Seq::<(
            Seq<char>,
            TextStyle,
            bool,
        )>::empty() =~= r@.map_values(|p: (String, TextStyle, bool)| (p.0@, p.1, p.2)));
        assert forall|k: int| 0 <= k < r@.len() implies (#[trigger] r@[k]).0@ == full[k].0
            && r@[k].1 == full[k].1 && r@[k].2 == full[k].2 by {
            assert(r@.map_values(|p: (String, TextStyle, bool)| (p.0@, p.1, p.2))[k] == full[k]);
        }
    }
    r
}

/// The full styling pipeline for one record's text: keyword matches
/// emphasized, digits and separators colored, pieces split at line breaks.
pub open spec fn keyword_pieces_spec(text: Seq<char>, keywords: Seq<char>) -> Seq<
    (Seq<char>, TextStyle, bool),
> {
    lined_spans(
        chars_highlighted(
            chars_highlighted(
                search_match_spans(text, keywords),
                TextStyle::Digit,
                CharClass::Numeric,
            ),
            TextStyle::Separator,
            CharClass::Separator,
        ),
    )
}

/// Styles `text` for display: marks case-insensitive matches of the
/// comma-separated `keywords`, colors digits and separator punctuation in
/// the rest, and splits the result at line breaks.
pub fn highlight_keyword_pieces(text: &str, keywords: &str) -> (r: Vec<(String, TextStyle, bool)>)
    ensures
        ({
            let out = keyword_pieces_spec(text@, keywords@);
            r@.len() == out.len() && (forall|k: int|
                0 <= k < r@.len() ==> (#[trigger] r@[k]).0@ == out[k].0 && r@[k].1 == out[k].1
                    && r@[k].2 == out[k].2)
        }),
{
    let s1 = highlight_search_matches(text, keywords);
    proof {
        assert(s1@.map_values(|p: (String, TextStyle)| (p.0@, p.1)) =~= search_match_spans(
            text@,
            keywords@,
        ));
    }
    let s2 = highlight_chars(CharClass::Numeric, s1, TextStyle::Digit);
    proof {
        assert(s2@.map_values(|p: (String, TextStyle)| (p.0@, p.1)) =~= chars_highlighted(
            search_match_spans(text@, keywords@),
            TextStyle::Digit,
            CharClass::Numeric,
        ));
    }
    let s3 = highlight_chars(CharClass::Separator, s2, TextStyle::Separator);
    proof {
        assert(s3@.map_values(|p: (String, TextStyle)| (p.0@, p.1)) =~= chars_highlighted(
            chars_highlighted(
                search_match_spans(text@, keywords@),
                TextStyle::Digit,
                CharClass::Numeric,
            ),
            TextStyle::Separator,
            CharClass::Separator,
        ));
    }
    split_spans_into_lines(s3)
}

} // verus!
