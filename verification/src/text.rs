//! Glyph-atlas text rendering with greedy word-wrap and pagination.
//!
//! A [`TextInfo`] maps characters to glyph source rectangles on a shared
//! atlas texture. Single-line rendering advances a cursor by each glyph's
//! own width (proportional fonts work); characters without a glyph are
//! skipped and do not advance the cursor. Paragraph rendering wraps words
//! greedily into a bounding rectangle and reports, when the text does not
//! fit, the index at which a later call can resume.

use std::rc::Rc;

use vstd::prelude::*;

use crate::objects::{Rect, Vec2};
use crate::screen::{pix_in_bounds, pixel_copied, pixel_unchanged, Screen};
use crate::texture::{clone_handle, Texture};

verus! {

/// The character-to-glyph mapping described by an ordered entry list; a
/// later entry for the same character wins.
pub open spec fn glyph_map(entries: Seq<(char, Rect)>) -> Map<char, Rect>
    decreases entries.len(),
{
    if entries.len() == 0 {
        Map::empty()
    } else {
        glyph_map(entries.drop_last()).insert(entries.last().0, entries.last().1)
    }
}

/// Every glyph rectangle has non-negative size.
pub open spec fn glyphs_wf(gm: Map<char, Rect>) -> bool {
    forall|c: char| gm.contains_key(c) ==> (#[trigger] gm[c]).wf()
}

/// The height of a text line: the tallest glyph of the table, 0 for an
/// empty table.
pub open spec fn spec_line_height(entries: Seq<(char, Rect)>) -> int
    decreases entries.len(),
{
    if entries.len() == 0 {
        0
    } else {
        let rest = spec_line_height(entries.drop_last());
        if entries.last().1.h > rest {
            entries.last().1.h as int
        } else {
            rest
        }
    }
}

/// The horizontal advance of one character: its glyph's width, or 0 for a
/// character the font does not know.
pub open spec fn char_width(gm: Map<char, Rect>, c: char) -> int {
    if gm.contains_key(c) {
        gm[c].w as int
    } else {
        0
    }
}

/// The cursor position at which glyph `j` is drawn when the characters
/// `[from, j)` of `s` have been laid out starting at `x0`.
pub open spec fn cursor_at(s: Seq<char>, gm: Map<char, Rect>, from: int, j: int, x0: int) -> int
    decreases j - from,
{
    if j <= from {
        x0
    } else {
        cursor_at(s, gm, from, j - 1, x0) + char_width(gm, s[j - 1])
    }
}

/// Whether drawing the character span `[from, ..)` of `s` at `(x0, y0)`
/// paints screen pixel `(px, py)` with glyph `j`: the character has a
/// glyph, the pixel lies in that glyph's destination box, and the sampled
/// texture coordinate lies inside the `tw` by `th` atlas.
pub open spec fn glyph_box_covers(
    s: Seq<char>,
    gm: Map<char, Rect>,
    from: int,
    j: int,
    x0: int,
    y0: int,
    tw: int,
    th: int,
    px: int,
    py: int,
) -> bool {
    &&& gm.contains_key(s[j])
    &&& ({
        let src = gm[s[j]];
        let cx = cursor_at(s, gm, from, j, x0);
        &&& cx <= px < cx + src.w
        &&& y0 <= py < y0 + src.h
        &&& 0 <= src.x + (px - cx) < tw
        &&& 0 <= src.y + (py - y0) < th
    })
}

/// The cursor never moves left.
proof fn lemma_cursor_mono(s: Seq<char>, gm: Map<char, Rect>, from: int, j1: int, j2: int, x0: int)
    requires
        glyphs_wf(gm),
        from <= j1 <= j2,
    ensures
        cursor_at(s, gm, from, j1, x0) <= cursor_at(s, gm, from, j2, x0),
    decreases j2 - j1,
{
    if j1 < j2 {
        lemma_cursor_mono(s, gm, from, j1, j2 - 1, x0);
    }
}

/// Properties of the glyph table that [`TextInfo::wf`] guarantees: the map
/// is well formed, the line height is non-negative, and no glyph is taller
/// than the line height.
proof fn lemma_glyph_map_props(entries: Seq<(char, Rect)>)
    requires
        forall|i: int| 0 <= i < entries.len() ==> (#[trigger] entries[i]).1.wf(),
    ensures
        glyphs_wf(glyph_map(entries)),
        spec_line_height(entries) >= 0,
        forall|c: char|
            glyph_map(entries).contains_key(c) ==> (#[trigger] glyph_map(entries)[c]).h
                <= spec_line_height(entries),
    decreases entries.len(),
{
    if entries.len() > 0 {
        assert(entries.last() == entries[entries.len() - 1]);
        assert(forall|i: int|
            0 <= i < entries.drop_last().len() ==> (#[trigger] entries.drop_last()[i]).1.wf());
        lemma_glyph_map_props(entries.drop_last());
    }
}

/// The characters that separate words.
pub open spec fn is_space_char(c: char) -> bool {
    c == ' ' || c == '\t' || c == '\n' || c == '\r'
}

/// The first position at or after `i` holding a non-space character (or
/// the end of the text).
pub open spec fn skip_spaces(s: Seq<char>, i: int) -> int
    decreases s.len() - i,
{
    if i >= s.len() || !is_space_char(s[i]) {
        i
    } else {
        skip_spaces(s, i + 1)
    }
}

/// The first position at or after `i` holding a space (or the end of the
/// text): the end of the word starting at `i`.
pub open spec fn word_end(s: Seq<char>, i: int) -> int
    decreases s.len() - i,
{
    if i >= s.len() || is_space_char(s[i]) {
        i
    } else {
        word_end(s, i + 1)
    }
}

pub proof fn lemma_skip_spaces_bounds(s: Seq<char>, i: int)
    requires
        0 <= i <= s.len(),
    ensures
        i <= skip_spaces(s, i) <= s.len(),
        skip_spaces(s, i) < s.len() ==> !is_space_char(s[skip_spaces(s, i)]),
    decreases s.len() - i,
{
    if !(i >= s.len() || !is_space_char(s[i])) {
        lemma_skip_spaces_bounds(s, i + 1);
    }
}

pub proof fn lemma_word_end_bounds(s: Seq<char>, i: int)
    requires
        0 <= i <= s.len(),
    ensures
        i <= word_end(s, i) <= s.len(),
        word_end(s, i) < s.len() ==> is_space_char(s[word_end(s, i)]),
        i < s.len() && !is_space_char(s[i]) ==> word_end(s, i) > i,
    decreases s.len() - i,
{
    if !(i >= s.len() || is_space_char(s[i])) {
        lemma_word_end_bounds(s, i + 1);
    }
}

/// The words of `s` at or after position `i`, each as a `(start, end)`
/// character range: the maximal non-space runs, in order.
pub open spec fn words_from(s: Seq<char>, i: int) -> Seq<(int, int)>
    decreases s.len() - i,
    via words_from_decreases
{
    let ws = skip_spaces(s, i);
    if !(0 <= ws < s.len()) {
        Seq::empty()
    } else {
        let we = word_end(s, ws);
        seq![(ws, we)] + words_from(s, we)
    }
}

#[via_fn]
proof fn words_from_decreases(s: Seq<char>, i: int) {
    let ws = skip_spaces(s, i);
    if 0 <= ws < s.len() {
        if 0 <= i <= s.len() {
            lemma_skip_spaces_bounds(s, i);
        }
        lemma_word_end_bounds(s, ws);
    }
}

/// The words of the whole text.
pub open spec fn words_of(s: Seq<char>) -> Seq<(int, int)> {
    words_from(s, 0)
}

/// Adding `b` to `a`, capped at `i32::MAX`: glyph-width sums saturate so
/// that any line wider than the coordinate space compares as such.
pub open spec fn sat_add(a: int, b: int) -> int {
    if a + b > i32::MAX {
        i32::MAX as int
    } else {
        a + b
    }
}

/// The pixel width of the characters `[i, j)` of `s`: the saturating sum
/// of their glyph advances.
pub open spec fn seq_width(gm: Map<char, Rect>, s: Seq<char>, i: int, j: int) -> int
    decreases j - i,
{
    if j <= i {
        0
    } else {
        sat_add(seq_width(gm, s, i, j - 1), char_width(gm, s[j - 1]))
    }
}

/// One word placement of the greedy wrap: the word's character range
/// `(start, end)`, the line it is placed on, and its x offset within the
/// rectangle.
pub type SpecPlacement = (int, int, int, int);

/// Greedy word-wrap from position `i`, with `line` the current line,
/// `x` the pixel width already used on it, and `started` whether it
/// already holds a word. Words are taken in order; a word that does not
/// fit after the current line's content (plus one space) opens the next
/// line, provided that line still fits the `max_h` vertical bound —
/// otherwise layout stops and reports the start of the first word not
/// placed. A word wider than `rect_w` still occupies a line of its own.
pub open spec fn wrap_from(
    s: Seq<char>,
    gm: Map<char, Rect>,
    rect_w: int,
    line_h: int,
    max_h: int,
    i: int,
    line: int,
    x: int,
    started: bool,
) -> (Seq<SpecPlacement>, Option<int>)
    decreases s.len() - i,
    via wrap_from_decreases
{
    let ws = skip_spaces(s, i);
    if !(0 <= ws < s.len()) {
        (Seq::empty(), None::<int>)
    } else {
        let we = word_end(s, ws);
        let w = seq_width(gm, s, ws, we);
        let sp = char_width(gm, ' ');
        if !started {
            let rec = wrap_from(s, gm, rect_w, line_h, max_h, we, line, w, true);
            (seq![(ws, we, line, 0int)] + rec.0, rec.1)
        } else if x + sp + w <= rect_w {
            let rec = wrap_from(s, gm, rect_w, line_h, max_h, we, line, x + sp + w, true);
            (seq![(ws, we, line, x + sp)] + rec.0, rec.1)
        } else if (line + 2) * line_h <= max_h {
            let rec = wrap_from(s, gm, rect_w, line_h, max_h, we, line + 1, w, true);
            (seq![(ws, we, line + 1, 0int)] + rec.0, rec.1)
        } else {
            (Seq::empty(), Some(ws))
        }
    }
}

#[via_fn]
proof fn wrap_from_decreases(
    s: Seq<char>,
    gm: Map<char, Rect>,
    rect_w: int,
    line_h: int,
    max_h: int,
    i: int,
    line: int,
    x: int,
    started: bool,
) {
    let ws = skip_spaces(s, i);
    if 0 <= ws < s.len() {
        if 0 <= i <= s.len() {
            lemma_skip_spaces_bounds(s, i);
        }
        lemma_word_end_bounds(s, ws);
    }
}

/// Greedy word-wrap of `s` into a rectangle of width `rect_w` whose
/// vertical space allows `max_h` pixels of `line_h`-tall lines: the word
/// placements, and the character index at which to resume when the text
/// does not fit (`None` when it all fits; empty input returns `None` at
/// once). Line `l` fits while `(l + 1) * line_h <= max_h`.
pub open spec fn wrap_text(
    s: Seq<char>,
    gm: Map<char, Rect>,
    rect_w: int,
    line_h: int,
    max_h: int,
) -> (Seq<SpecPlacement>, Option<int>) {
    if line_h <= max_h {
        wrap_from(s, gm, rect_w, line_h, max_h, 0, 0, 0, false)
    } else {
        let ws = skip_spaces(s, 0);
        if 0 <= ws < s.len() {
            (Seq::empty(), Some(ws))
        } else {
            (Seq::empty(), None::<int>)
        }
    }
}

/// Glyph-width sums are non-negative and saturate below `i32::MAX`.
proof fn lemma_seq_width_bounds(gm: Map<char, Rect>, s: Seq<char>, i: int, j: int)
    requires
        glyphs_wf(gm),
    ensures
        0 <= seq_width(gm, s, i, j) <= i32::MAX,
    decreases j - i,
{
    if j > i {
        lemma_seq_width_bounds(gm, s, i, j - 1);
    }
}

/// Bounds on every placement the greedy wrap produces: word ranges lie in
/// the text with at least one character, lines never run backwards and
/// always fit the vertical bound, and x offsets fit the coordinate space.
proof fn lemma_wrap_placement_bounds(
    s: Seq<char>,
    gm: Map<char, Rect>,
    rect_w: int,
    line_h: int,
    max_h: int,
    i: int,
    line: int,
    x: int,
    started: bool,
)
    requires
        glyphs_wf(gm),
        rect_w <= i32::MAX,
        0 <= i,
        0 <= line,
        0 <= x,
        0 <= line_h,
        (line + 1) * line_h <= max_h,
    ensures
        forall|pi: int|
            0 <= pi < wrap_from(s, gm, rect_w, line_h, max_h, i, line, x, started).0.len() ==> {
                let p = #[trigger] wrap_from(s, gm, rect_w, line_h, max_h, i, line, x, started).0[pi];
                &&& 0 <= p.0 < p.1 <= s.len()
                &&& line <= p.2
                &&& (p.2 + 1) * line_h <= max_h
                &&& 0 <= p.3 <= i32::MAX
            },
    decreases s.len() - i,
{
    let ws = skip_spaces(s, i);
    if 0 <= ws < s.len() {
        lemma_skip_spaces_bounds(s, i);
        lemma_word_end_bounds(s, ws);
        let we = word_end(s, ws);
        let w = seq_width(gm, s, ws, we);
        let sp = char_width(gm, ' ');
        lemma_seq_width_bounds(gm, s, ws, we);
        let cur = wrap_from(s, gm, rect_w, line_h, max_h, i, line, x, started);
        if !started {
            lemma_wrap_placement_bounds(s, gm, rect_w, line_h, max_h, we, line, w, true);
            let tail = wrap_from(s, gm, rect_w, line_h, max_h, we, line, w, true);
            assert(forall|pi: int| 1 <= pi < cur.0.len() ==> cur.0[pi] == tail.0[pi - 1]);
        } else if x + sp + w <= rect_w {
            lemma_wrap_placement_bounds(s, gm, rect_w, line_h, max_h, we, line, x + sp + w, true);
            let tail = wrap_from(s, gm, rect_w, line_h, max_h, we, line, x + sp + w, true);
            assert(forall|pi: int| 1 <= pi < cur.0.len() ==> cur.0[pi] == tail.0[pi - 1]);
        } else if (line + 2) * line_h <= max_h {
            lemma_wrap_placement_bounds(s, gm, rect_w, line_h, max_h, we, line + 1, w, true);
            let tail = wrap_from(s, gm, rect_w, line_h, max_h, we, line + 1, w, true);
            assert(forall|pi: int| 1 <= pi < cur.0.len() ==> cur.0[pi] == tail.0[pi - 1]);
        }
    }
}

/// Whether one of the placed words' glyphs covers pixel `(px, py)` when
/// the placements `ps` of `s` are drawn inside `rect` with line height
/// `line_h` from a `tw` by `th` atlas.
pub open spec fn wrapped_covers(
    s: Seq<char>,
    gm: Map<char, Rect>,
    ps: Seq<SpecPlacement>,
    rect: Rect,
    line_h: int,
    tw: int,
    th: int,
    px: int,
    py: int,
) -> bool {
    exists|pi: int, j: int|
        0 <= pi < ps.len() && ps[pi].0 <= j < ps[pi].1 && #[trigger] glyph_box_covers(
            s,
            gm,
            ps[pi].0,
            j,
            rect.x + ps[pi].3,
            rect.y + ps[pi].2 * line_h,
            tw,
            th,
            px,
            py,
        )
}

/// The word character ranges of a placement list.
pub open spec fn placement_spans(ps: Seq<SpecPlacement>) -> Seq<(int, int)> {
    ps.map_values(|p: SpecPlacement| (p.0, p.1))
}

/// How the greedy wrap consumes words: it places a prefix of the word
/// list of `s` (all of it when it reports `None`), in order, and reports
/// as resume index exactly the start of the first word it did not place;
/// the words at or after the resume index are exactly the unplaced words.
/// On a line that has no word yet, at least one word is always placed.
proof fn lemma_wrap_words(
    s: Seq<char>,
    gm: Map<char, Rect>,
    rect_w: int,
    line_h: int,
    max_h: int,
    i: int,
    line: int,
    x: int,
    started: bool,
)
    requires
        0 <= i <= s.len(),
    ensures
        ({
            let (ps, res) = wrap_from(s, gm, rect_w, line_h, max_h, i, line, x, started);
            let wds = words_from(s, i);
            match res {
                None => placement_spans(ps) == wds,
                Some(r) => {
                    let k = ps.len() as int;
                    &&& 0 <= k < wds.len()
                    &&& placement_spans(ps) == wds.take(k)
                    &&& wds[k].0 == r
                    &&& words_from(s, r) == wds.skip(k)
                    &&& (!started ==> k >= 1)
                },
            }
        }),
    decreases s.len() - i,
{
    let ws = skip_spaces(s, i);
    let wds = words_from(s, i);
    if !(0 <= ws < s.len()) {
        assert(placement_spans(Seq::<SpecPlacement>::empty()) =~= wds);
    } else {
        lemma_skip_spaces_bounds(s, i);
        lemma_word_end_bounds(s, ws);
        let we = word_end(s, ws);
        let w = seq_width(gm, s, ws, we);
        let sp = char_width(gm, ' ');
        let wtail = words_from(s, we);
        assert(wds == seq![(ws, we)] + wtail);
        let (ps, res) = wrap_from(s, gm, rect_w, line_h, max_h, i, line, x, started);
        if !started || x + sp + w <= rect_w || (line + 2) * line_h <= max_h {
            let nline = if !started {
                line
            } else if x + sp + w <= rect_w {
                line
            } else {
                line + 1
            };
            let nx = if !started {
                w
            } else if x + sp + w <= rect_w {
                x + sp + w
            } else {
                w
            };
            let off = if !started {
                0int
            } else if x + sp + w <= rect_w {
                x + sp
            } else {
                0int
            };
            let pv = (ws, we, nline, off);
            let (tps, tres) = wrap_from(s, gm, rect_w, line_h, max_h, we, nline, nx, true);
            assert(ps == seq![pv] + tps);
            assert(res == tres);
            lemma_wrap_words(s, gm, rect_w, line_h, max_h, we, nline, nx, true);
            assert(placement_spans(ps) =~= seq![(ws, we)] + placement_spans(tps));
            match tres {
                None => {
                    assert(placement_spans(ps) =~= wds);
                }
                Some(r) => {
                    let tk = tps.len() as int;
                    let k = ps.len() as int;
                    assert(k == 1 + tk);
                    assert(placement_spans(ps) =~= wds.take(k));
                    assert(wds[k] == wtail[tk]);
                    assert(words_from(s, r) == wtail.skip(tk));
                    assert(wtail.skip(tk) =~= wds.skip(k));
                }
            }
        } else {
            // layout stops: the word at `ws` is the first not placed
            assert(ps == Seq::<SpecPlacement>::empty());
            assert(res == Some(ws));
            assert(placement_spans(ps) =~= wds.take(0));
            assert(skip_spaces(s, ws) == ws);
            assert(words_from(s, ws) == seq![(ws, we)] + words_from(s, we));
            assert(words_from(s, ws) == wds);
            assert(wds.skip(0) =~= wds);
        }
    }
}

/// Pagination soundness of one wrap call, for a rectangle that fits at
/// least one line: either the whole word list of `s` is placed, in order,
/// and the call reports `None`; or some non-empty prefix of `k` words is
/// placed, the reported resume index is exactly the start of word `k`,
/// and the words at or after it are exactly the words not placed. Since
/// at least one word is placed whenever any word exists, resuming from
/// the reported index makes progress, and repeating until `None` places
/// every word exactly once, in order.
pub proof fn lemma_pagination_step(
    s: Seq<char>,
    gm: Map<char, Rect>,
    rect_w: int,
    line_h: int,
    max_h: int,
)
    requires
        line_h <= max_h,
    ensures
        ({
            let (ps, res) = wrap_text(s, gm, rect_w, line_h, max_h);
            let wds = words_of(s);
            match res {
                None => placement_spans(ps) == wds,
                Some(r) => {
                    let k = ps.len() as int;
                    &&& 1 <= k < wds.len()
                    &&& placement_spans(ps) == wds.take(k)
                    &&& wds[k].0 == r
                    &&& words_from(s, r) == wds.skip(k)
                    &&& 0 < r <= s.len()
                },
            }
        }),
{
    lemma_wrap_words(s, gm, rect_w, line_h, max_h, 0, 0, 0, false);
    let (ps, res) = wrap_text(s, gm, rect_w, line_h, max_h);
    let wds = words_of(s);
    if res is Some {
        let k = ps.len() as int;
        let r = res->0;
        lemma_words_in_text(s, 0);
        assert(wds[k].0 == r);
        assert(0 <= wds[k].0 < wds[k].1 <= s.len());
        assert(wds[k - 1].1 <= wds[k].0);
        assert(0 <= wds[k - 1].0 < wds[k - 1].1);
    }
}

/// Every word range lies inside the text, is non-empty, and successive
/// words are separated and in order.
pub proof fn lemma_words_in_text(s: Seq<char>, i: int)
    requires
        0 <= i <= s.len(),
    ensures
        forall|j: int|
            0 <= j < words_from(s, i).len() ==> {
                let p = #[trigger] words_from(s, i)[j];
                i <= p.0 < p.1 <= s.len()
            },
        forall|j: int|
            0 <= j < words_from(s, i).len() - 1 ==> (#[trigger] words_from(s, i)[j]).1
                <= words_from(s, i)[j + 1].0,
    decreases s.len() - i,
{
    let ws = skip_spaces(s, i);
    if 0 <= ws < s.len() {
        lemma_skip_spaces_bounds(s, i);
        lemma_word_end_bounds(s, ws);
        let we = word_end(s, ws);
        lemma_words_in_text(s, we);
        let wds = words_from(s, i);
        let wtail = words_from(s, we);
        assert(wds == seq![(ws, we)] + wtail);
        if wtail.len() > 0 {
            let ws2 = skip_spaces(s, we);
            lemma_skip_spaces_bounds(s, we);
            assert(wtail[0].0 == ws2);
        }
    }
}

proof fn lemma_skip_spaces_shift(s: Seq<char>, r: int, i: int)
    requires
        0 <= r <= s.len(),
        0 <= i,
    ensures
        skip_spaces(s.subrange(r, s.len() as int), i) == skip_spaces(s, r + i) - r,
    decreases s.len() - r - i,
{
    let t = s.subrange(r, s.len() as int);
    if i < t.len() {
        assert(t[i] == s[r + i]);
        if is_space_char(s[r + i]) {
            lemma_skip_spaces_shift(s, r, i + 1);
        }
    }
}

proof fn lemma_word_end_shift(s: Seq<char>, r: int, i: int)
    requires
        0 <= r <= s.len(),
        0 <= i,
    ensures
        word_end(s.subrange(r, s.len() as int), i) == word_end(s, r + i) - r,
    decreases s.len() - r - i,
{
    let t = s.subrange(r, s.len() as int);
    if i < t.len() {
        assert(t[i] == s[r + i]);
        if !is_space_char(s[r + i]) {
            lemma_word_end_shift(s, r, i + 1);
        }
    }
}

proof fn lemma_words_shift(s: Seq<char>, r: int, i: int)
    requires
        0 <= r <= s.len(),
        0 <= i,
    ensures
        ({
            let tw = words_from(s.subrange(r, s.len() as int), i);
            let sw = words_from(s, r + i);
            &&& tw.len() == sw.len()
            &&& forall|j: int|
                0 <= j < tw.len() ==> #[trigger] tw[j] == (sw[j].0 - r, sw[j].1 - r)
        }),
    decreases s.len() - r - i,
{
    let t = s.subrange(r, s.len() as int);
    let ws = skip_spaces(t, i);
    lemma_skip_spaces_shift(s, r, i);
    if 0 <= ws < t.len() {
        lemma_skip_spaces_bounds(s, r + i);
        lemma_word_end_shift(s, r, ws);
        lemma_word_end_bounds(s, r + ws);
        let we = word_end(t, ws);
        lemma_words_shift(s, r, we);
        let tw = words_from(t, i);
        let sw = words_from(s, r + i);
        assert(tw == seq![(ws, we)] + words_from(t, we));
        assert(sw == seq![(r + ws, r + we)] + words_from(s, r + we));
    } else {
        assert(words_from(t, i).len() == 0);
        if 0 <= skip_spaces(s, r + i) < s.len() {
            assert(ws == skip_spaces(s, r + i) - r);
            if r + i <= s.len() {
                lemma_skip_spaces_bounds(s, r + i);
            }
            assert(false);
        }
    }
}

/// Resuming from a word start loses and duplicates nothing: the words of
/// the text from index `r` on are, shifted by `r`, exactly the words of
/// the substring of `s` that starts at `r`. Together with
/// [`lemma_pagination_step`] this shows that repeatedly laying out the
/// substring from the previously reported resume index renders every word
/// of the original text exactly once, in order.
pub proof fn lemma_words_of_suffix(s: Seq<char>, r: int)
    requires
        0 <= r <= s.len(),
    ensures
        ({
            let tw = words_of(s.subrange(r, s.len() as int));
            let sw = words_from(s, r);
            &&& tw.len() == sw.len()
            &&& forall|j: int|
                0 <= j < tw.len() ==> #[trigger] tw[j] == (sw[j].0 - r, sw[j].1 - r)
        }),
{
    lemma_words_shift(s, r, 0);
}

/// Whether a placement later than `pi` (but before `upto`) covers pixel
/// `(px, py)`: draws apply in placement order, so a later placement's
/// glyph overwrites an earlier one's at the same pixel.
pub open spec fn later_placement_covers(
    s: Seq<char>,
    gm: Map<char, Rect>,
    ps: Seq<SpecPlacement>,
    rect: Rect,
    line_h: int,
    tw: int,
    th: int,
    pi: int,
    upto: int,
    px: int,
    py: int,
) -> bool {
    exists|qi: int, j2: int|
        pi < qi < upto && ps[qi].0 <= j2 < ps[qi].1 && #[trigger] glyph_box_covers(
            s,
            gm,
            ps[qi].0,
            j2,
            rect.x + ps[qi].3,
            rect.y + ps[qi].2 * line_h,
            tw,
            th,
            px,
            py,
        )
}

/// Decides [`is_space_char`].
pub fn is_space(c: char) -> (b: bool)
    ensures
        b == is_space_char(c),
{
    c == ' ' || c == '\t' || c == '\n' || c == '\r'
}

/// One word placement computed by [`layout_text`]: the word's character
/// range `[start, end)` in the input, the line it goes on, and its x
/// offset within the layout rectangle.
pub struct WordPlacement {
    pub start: usize,
    pub end: usize,
    pub line: usize,
    pub x: i32,
}

/// The placements as the wrap specification states them.
pub open spec fn placements_view(ps: Seq<WordPlacement>) -> Seq<SpecPlacement> {
    ps.map_values(|p: WordPlacement| (p.start as int, p.end as int, p.line as int, p.x as int))
}

/// Computes the greedy word-wrap of `s` for a rectangle of width `rect_w`
/// and vertical space `max_h`, with the line height of `font`: exactly
/// [`wrap_text`], as word placements plus the resume index (`None` when
/// the whole text is laid out).
pub fn layout_text(s: &str, font: &TextInfo, rect_w: i32, max_h: i64) -> (r: (
    Vec<WordPlacement>,
    Option<usize>,
))
    requires
        font.wf(),
        -0x1_0000_0000 <= max_h <= 0x1_0000_0000,
    ensures
        ({
            let (sp, sr) = wrap_text(
                s@,
                font.glyphs(),
                rect_w as int,
                font.line_height as int,
                max_h as int,
            );
            &&& placements_view(r.0@) == sp
            &&& match (r.1, sr) {
                (Some(a), Some(b)) => a == b,
                (None, None) => true,
                _ => false,
            }
        }),
{
    let ghost gm = font.glyphs();
    let ghost lh = font.line_height as int;
    let ghost rw = rect_w as int;
    let ghost mh = max_h as int;
    proof {
        font.lemma_wf_glyphs();
    }
    let n = s.unicode_len();
    let mut placements: Vec<WordPlacement> = Vec::new();
    let mut result: Option<usize> = None;
    let mut i: usize = 0;
    if (font.line_height as i64) > max_h {
        // not even one line fits: the first word, if any, is the resume point
        while i < n && is_space(s.get_char(i))
            invariant
                n == s@.len(),
                0 <= i <= n,
                skip_spaces(s@, 0) == skip_spaces(s@, i as int),
            decreases n - i,
        {
            i = i + 1;
        }
        if i < n {
            result = Some(i);
        }
        return (placements, result);
    }
    let sp: i64 = match font.glyph(' ') {
        Some(r) => r.w as i64,
        None => 0,
    };
    let mut line: usize = 0;
    let mut x: i64 = 0;
    let mut started = false;
    let mut done = false;
    while !done
        invariant
            n == s@.len(),
            0 <= i <= n,
            line <= i,
            0 <= x <= i32::MAX,
            font.wf(),
            gm == font.glyphs(),
            glyphs_wf(gm),
            lh == font.line_height as int,
            rw == rect_w as int,
            mh == max_h as int,
            0 <= lh <= mh,
            -0x1_0000_0000 <= mh <= 0x1_0000_0000,
            sp == char_width(gm, ' '),
            (line + 1) * lh <= mh,
            !done ==> wrap_text(s@, gm, rw, lh, mh) == (
                placements_view(placements@) + wrap_from(
                    s@,
                    gm,
                    rw,
                    lh,
                    mh,
                    i as int,
                    line as int,
                    x as int,
                    started,
                ).0,
                wrap_from(s@, gm, rw, lh, mh, i as int, line as int, x as int, started).1,
            ),
            done ==> wrap_text(s@, gm, rw, lh, mh) == (
                placements_view(placements@),
                match result {
                    Some(r_) => Some(r_ as int),
                    None => None::<int>,
                },
            ),
        decreases 2 * (n - i) + (if done {
            0int
        } else {
            1int
        }),
    {
        let ghost i0 = i as int;
        let ghost line0 = line as int;
        let ghost x0 = x as int;
        let ghost started0 = started;
        let ghost rest = wrap_from(s@, gm, rw, lh, mh, i0, line0, x0, started0);
        // find the start of the next word
        while i < n && is_space(s.get_char(i))
            invariant
                n == s@.len(),
                0 <= i <= n,
                skip_spaces(s@, i0) == skip_spaces(s@, i as int),
                i0 <= i,
            decreases n - i,
        {
            i = i + 1;
        }
        proof {
            assert(skip_spaces(s@, i as int) == i as int);
            assert(skip_spaces(s@, i0) == i as int);
        }
        if i == n {
            done = true;
            result = None;
            proof {
                assert(rest == (Seq::<SpecPlacement>::empty(), None::<int>));
                assert(placements_view(placements@) + Seq::<SpecPlacement>::empty()
                    =~= placements_view(placements@));
            }
        } else {
            let ws = i;
            // find the end of the word
            while i < n && !is_space(s.get_char(i))
                invariant
                    n == s@.len(),
                    ws <= i <= n,
                    word_end(s@, ws as int) == word_end(s@, i as int),
                decreases n - i,
            {
                i = i + 1;
            }
            let we = i;
            proof {
                assert(word_end(s@, we as int) == we as int);
            }
            // the word's pixel width
            let mut ww: i64 = 0;
            let mut k = ws;
            while k < we
                invariant
                    n == s@.len(),
                    ws <= k <= we <= n,
                    font.wf(),
                    gm == font.glyphs(),
                    glyphs_wf(gm),
                    0 <= ww <= i32::MAX,
                    ww == seq_width(gm, s@, ws as int, k as int),
                decreases we - k,
            {
                let cw: i64 = match font.glyph(s.get_char(k)) {
                    Some(r) => r.w as i64,
                    None => 0,
                };
                ww = if ww + cw > i32::MAX as i64 {
                    i32::MAX as i64
                } else {
                    ww + cw
                };
                k = k + 1;
            }
            let ghost wsp = ws as int;
            let ghost wep = we as int;
            let ghost wwp = ww as int;
            if !started {
                placements.push(WordPlacement { start: ws, end: we, line, x: 0 });
                x = ww;
                started = true;
                proof {
                    let pv = (wsp, wep, line0, 0int);
                    let tail = wrap_from(s@, gm, rw, lh, mh, wep, line0, wwp, true);
                    assert(rest == (seq![pv] + tail.0, tail.1));
                    assert(placements_view(placements@) =~= placements_view(
                        placements@.drop_last(),
                    ).push(pv));
                    assert(placements_view(placements@.drop_last()).push(pv) + tail.0
                        =~= placements_view(placements@.drop_last()) + (seq![pv] + tail.0));
                }
            } else if x + sp + ww <= rect_w as i64 {
                placements.push(WordPlacement { start: ws, end: we, line, x: (x + sp) as i32 });
                x = x + sp + ww;
                proof {
                    let pv = (wsp, wep, line0, x0 + sp);
                    let tail = wrap_from(s@, gm, rw, lh, mh, wep, line0, x0 + sp + wwp, true);
                    assert(rest == (seq![pv] + tail.0, tail.1));
                    assert(placements_view(placements@) =~= placements_view(
                        placements@.drop_last(),
                    ).push(pv));
                    assert(placements_view(placements@.drop_last()).push(pv) + tail.0
                        =~= placements_view(placements@.drop_last()) + (seq![pv] + tail.0));
                }
            } else {
                let fits: bool;
                if font.line_height == 0 {
                    fits = true;
                    proof {
                        assert((line0 + 2) * 0 == 0);
                    }
                } else {
                    proof {
                        assert(line + 1 <= mh) by (nonlinear_arith)
                            requires
                                (line + 1) * lh <= mh,
                                lh >= 1,
                                line >= 0,
                        ;
                        assert((line + 2) * lh == (line + 1) * lh + lh) by (nonlinear_arith);
                    }
                    let t: i64 = (line as i64 + 2) * (font.line_height as i64);
                    fits = t <= max_h;
                }
                if fits {
                    line = line + 1;
                    placements.push(WordPlacement { start: ws, end: we, line, x: 0 });
                    x = ww;
                    proof {
                        let pv = (wsp, wep, line0 + 1, 0int);
                        let tail = wrap_from(s@, gm, rw, lh, mh, wep, line0 + 1, wwp, true);
                        assert(rest == (seq![pv] + tail.0, tail.1));
                        assert(placements_view(placements@) =~= placements_view(
                            placements@.drop_last(),
                        ).push(pv));
                        assert(placements_view(placements@.drop_last()).push(pv) + tail.0
                            =~= placements_view(placements@.drop_last()) + (seq![pv] + tail.0));
                    }
                } else {
                    result = Some(ws);
                    done = true;
                    proof {
                        assert(rest == (Seq::<SpecPlacement>::empty(), Some(wsp)));
                        assert(placements_view(placements@) + Seq::<SpecPlacement>::empty()
                            =~= placements_view(placements@));
                    }
                }
            }
        }
    }
    (placements, result)
}

/// An ordered mapping from characters to glyph source rectangles on a
/// shared atlas texture, built once and immutable thereafter.
pub struct TextInfo {
    pub info: Vec<(char, Rect)>,
    pub image: Rc<Texture>,
    pub line_height: i32,
}

impl TextInfo {
    /// The character-to-glyph mapping of this font.
    pub open spec fn glyphs(self) -> Map<char, Rect> {
        glyph_map(self.info@)
    }

    pub open spec fn wf(self) -> bool {
        &&& self.image.wf()
        &&& forall|i: int| 0 <= i < self.info@.len() ==> (#[trigger] self.info@[i]).1.wf()
        &&& self.line_height == spec_line_height(self.info@)
    }

    /// What [`TextInfo::wf`] gives about the glyph map and line height.
    pub proof fn lemma_wf_glyphs(self)
        requires
            self.wf(),
        ensures
            glyphs_wf(self.glyphs()),
            self.line_height >= 0,
            forall|c: char|
                self.glyphs().contains_key(c) ==> (#[trigger] self.glyphs()[c]).h
                    <= self.line_height,
    {
        lemma_glyph_map_props(self.info@);
    }

    /// Builds a font from a glyph table and a shared atlas handle; a later
    /// entry for the same character wins, as in the resulting map.
    pub fn new(image: &Rc<Texture>, char_info: &[(char, Rect)]) -> (t: TextInfo)
        requires
            image.wf(),
            forall|i: int| 0 <= i < char_info@.len() ==> (#[trigger] char_info@[i]).1.wf(),
        ensures
            t.wf(),
            t.info@ == char_info@,
            t.image == **image,
    {
        let n = char_info.len();
        let mut info: Vec<(char, Rect)> = Vec::new();
        let mut lh: i32 = 0;
        let mut i: usize = 0;
        while i < n
            invariant
                n == char_info@.len(),
                0 <= i <= n,
                forall|k: int| 0 <= k < n ==> (#[trigger] char_info@[k]).1.wf(),
                info@ == char_info@.take(i as int),
                lh == spec_line_height(char_info@.take(i as int)),
                lh >= 0,
            decreases n - i,
        {
            let entry = char_info[i];
            info.push(entry);
            if entry.1.h > lh {
                lh = entry.1.h;
            }
            proof {
                assert(char_info@.take(i + 1).drop_last() =~= char_info@.take(i as int));
                assert(char_info@.take(i + 1).last() == char_info@[i as int]);
            }
            i = i + 1;
        }
        proof {
            assert(char_info@.take(n as int) =~= char_info@);
        }
        TextInfo { info, image: clone_handle(image), line_height: lh }
    }

    /// Looks a character up in the glyph table: exactly the mapping of
    /// [`TextInfo::glyphs`].
    pub fn glyph(&self, c: char) -> (r: Option<Rect>)
        ensures
            match r {
                Some(rect) => self.glyphs().contains_key(c) && rect == self.glyphs()[c],
                None => !self.glyphs().contains_key(c),
            },
    {
        let n = self.info.len();
        let mut found: Option<Rect> = None;
        let mut i: usize = 0;
        while i < n
            invariant
                n == self.info@.len(),
                0 <= i <= n,
                match found {
                    Some(rect) => glyph_map(self.info@.take(i as int)).contains_key(c) && rect
                        == glyph_map(self.info@.take(i as int))[c],
                    None => !glyph_map(self.info@.take(i as int)).contains_key(c),
                },
            decreases n - i,
        {
            let entry = self.info[i];
            if entry.0 == c {
                found = Some(entry.1);
            }
            proof {
                assert(self.info@.take(i + 1).drop_last() =~= self.info@.take(i as int));
                assert(self.info@.take(i + 1).last() == self.info@[i as int]);
            }
            i = i + 1;
        }
        proof {
            assert(self.info@.take(n as int) =~= self.info@);
        }
        found
    }
}

impl Screen {
    /// Draws the characters `[from, to)` of `string` left to right starting
    /// at `(x0, y0)`: each known character's glyph is blitted at the cursor
    /// and the cursor advances by that glyph's own width; unknown
    /// characters are skipped without advancing. Every pixel outside the
    /// glyph boxes keeps its bytes.
    pub fn draw_text_span(&mut self, string: &str, from: usize, to: usize, x0: i64, y0: i64, font: &TextInfo)
        requires
            old(self).wf(),
            font.wf(),
            from <= to <= string@.len(),
            -0x4_0000_0000 <= x0 <= 0x4_0000_0000,
            -0x4_0000_0000 <= y0 <= 0x4_0000_0000,
        ensures
            final(self).wf(),
            old(self).same_dims(*final(self)),
            forall|px: int, py: int, j: int|
                pix_in_bounds(old(self).spec_width(), old(self).spec_height(), px, py) && from <= j
                    < to && #[trigger] glyph_box_covers(
                    string@,
                    font.glyphs(),
                    from as int,
                    j,
                    x0 as int,
                    y0 as int,
                    font.image.spec_width(),
                    font.image.spec_height(),
                    px,
                    py,
                ) ==> pixel_copied(
                    final(self).fb(),
                    old(self).spec_width(),
                    px,
                    py,
                    font.image.px(),
                    font.image.spec_width(),
                    font.glyphs()[string@[j]].x + (px - cursor_at(
                        string@,
                        font.glyphs(),
                        from as int,
                        j,
                        x0 as int,
                    )),
                    font.glyphs()[string@[j]].y + (py - y0),
                ),
            forall|px: int, py: int|
                pix_in_bounds(old(self).spec_width(), old(self).spec_height(), px, py) && (forall|
                    j: int,
                |
                    from <= j < to ==> !(#[trigger] glyph_box_covers(
                        string@,
                        font.glyphs(),
                        from as int,
                        j,
                        x0 as int,
                        y0 as int,
                        font.image.spec_width(),
                        font.image.spec_height(),
                        px,
                        py,
                    ))) ==> pixel_unchanged(
                    old(self).fb(),
                    final(self).fb(),
                    old(self).spec_width(),
                    px,
                    py,
                ),
    {
        let ghost gm = font.glyphs();
        let ghost tw = font.image.spec_width();
        let ghost th = font.image.spec_height();
        let ghost w = self.spec_width();
        let ghost h = self.spec_height();
        let ghost fb0 = self.fb();
        proof {
            font.lemma_wf_glyphs();
            self.lemma_wf_len();
            font.image.lemma_wf_dims();
        }
        if y0 > i32::MAX as i64 || y0 < i32::MIN as i64 {
            // every glyph box lies entirely above or below the screen
            proof {
                assert forall|px: int, py: int, j: int|
                    pix_in_bounds(w, h, px, py) && from <= j < to implies !glyph_box_covers(
                    string@,
                    gm,
                    from as int,
                    j,
                    x0 as int,
                    y0 as int,
                    tw,
                    th,
                    px,
                    py,
                ) by {
                    if gm.contains_key(string@[j]) {
                        assert(gm[string@[j]].h <= i32::MAX);
                    }
                }
            }
            return ;
        }
        let mut j = from;
        let mut cur: i64 = x0;
        while j < to && cur <= i32::MAX as i64
            invariant
                self.wf(),
                w == self.spec_width(),
                h == self.spec_height(),
                fb0.len() == self.fb().len(),
                font.wf(),
                gm == font.glyphs(),
                glyphs_wf(gm),
                tw == font.image.spec_width(),
                th == font.image.spec_height(),
                w <= i32::MAX,
                h <= i32::MAX,
                from <= j <= to,
                to <= string@.len(),
                -0x4_0000_0000 <= x0 <= 0x4_0000_0000,
                i32::MIN <= y0 <= i32::MAX,
                x0 <= cur,
                cur == cursor_at(string@, gm, from as int, j as int, x0 as int),
                forall|px: int, py: int, jj: int|
                    pix_in_bounds(w, h, px, py) && from <= jj < j && #[trigger] glyph_box_covers(
                        string@,
                        gm,
                        from as int,
                        jj,
                        x0 as int,
                        y0 as int,
                        tw,
                        th,
                        px,
                        py,
                    ) ==> pixel_copied(
                        self.fb(),
                        w,
                        px,
                        py,
                        font.image.px(),
                        tw,
                        gm[string@[jj]].x + (px - cursor_at(string@, gm, from as int, jj, x0 as int)),
                        gm[string@[jj]].y + (py - y0),
                    ),
                forall|px: int, py: int|
                    pix_in_bounds(w, h, px, py) && (forall|jj: int|
                        from <= jj < j ==> !(#[trigger] glyph_box_covers(
                            string@,
                            gm,
                            from as int,
                            jj,
                            x0 as int,
                            y0 as int,
                            tw,
                            th,
                            px,
                            py,
                        ))) ==> pixel_unchanged(fb0, self.fb(), w, px, py),
            decreases to - j,
        {
            let ch = string.get_char(j);
            match font.glyph(ch) {
                Some(src) => {
                    if cur >= i32::MIN as i64 {
                        let ghost fbm = self.fb();
                        self.bitblt(&font.image, src, Vec2 { x: cur as i32, y: y0 as i32 });
                        proof {
                            assert forall|px: int, py: int|
                                pix_in_bounds(w, h, px, py) && (forall|jj: int|
                                    from <= jj < j + 1 ==> !(#[trigger] glyph_box_covers(
                                        string@,
                                        gm,
                                        from as int,
                                        jj,
                                        x0 as int,
                                        y0 as int,
                                        tw,
                                        th,
                                        px,
                                        py,
                                    ))) implies pixel_unchanged(fb0, self.fb(), w, px, py) by {
                                assert(!glyph_box_covers(
                                    string@,
                                    gm,
                                    from as int,
                                    j as int,
                                    x0 as int,
                                    y0 as int,
                                    tw,
                                    th,
                                    px,
                                    py,
                                ));
                                assert(!crate::screen::blit_covers(
                                    tw,
                                    th,
                                    src,
                                    Vec2 { x: cur as i32, y: y0 as i32 },
                                    px,
                                    py,
                                ));
                                assert(pixel_unchanged(fb0, fbm, w, px, py));
                            }
                            assert forall|px: int, py: int, jj: int|
                                pix_in_bounds(w, h, px, py) && from <= jj < j
                                    && #[trigger] glyph_box_covers(
                                    string@,
                                    gm,
                                    from as int,
                                    jj,
                                    x0 as int,
                                    y0 as int,
                                    tw,
                                    th,
                                    px,
                                    py,
                                ) implies pixel_copied(
                                self.fb(),
                                w,
                                px,
                                py,
                                font.image.px(),
                                tw,
                                gm[string@[jj]].x + (px - cursor_at(
                                    string@,
                                    gm,
                                    from as int,
                                    jj,
                                    x0 as int,
                                )),
                                gm[string@[jj]].y + (py - y0),
                            ) by {
                                lemma_cursor_mono(string@, gm, from as int, jj + 1, j as int, x0 as int);
                            }
                        }
                    } else {
                        // the whole box lies left of the screen
                        proof {
                            assert forall|px: int, py: int|
                                pix_in_bounds(w, h, px, py) implies !glyph_box_covers(
                                string@,
                                gm,
                                from as int,
                                j as int,
                                x0 as int,
                                y0 as int,
                                tw,
                                th,
                                px,
                                py,
                            ) by {
                                assert(gm[string@[j as int]].w <= i32::MAX);
                            }
                        }
                    }
                    cur = cur + src.w as i64;
                }
                None => {
                    proof {
                        assert forall|px: int, py: int|
                            pix_in_bounds(w, h, px, py) implies !glyph_box_covers(
                            string@,
                            gm,
                            from as int,
                            j as int,
                            x0 as int,
                            y0 as int,
                            tw,
                            th,
                            px,
                            py,
                        ) by {}
                    }
                }
            }
            j = j + 1;
        }
        proof {
            if j < to {
                // the cursor has passed the right edge of the screen: no
                // remaining glyph box intersects it
                assert forall|px: int, py: int, jj: int|
                    pix_in_bounds(w, h, px, py) && j <= jj < to implies !glyph_box_covers(
                    string@,
                    gm,
                    from as int,
                    jj,
                    x0 as int,
                    y0 as int,
                    tw,
                    th,
                    px,
                    py,
                ) by {
                    lemma_cursor_mono(string@, gm, from as int, j as int, jj, x0 as int);
                }
            }
        }
    }

    /// Lays `string` out inside `rect` by greedy word-wrap and draws the
    /// placed words; see [`wrap_text`] for the layout. The vertical bound
    /// is `rect.h`, or the space down to the screen bottom when
    /// `allow_overflow` is set. Returns `None` when the whole text was laid
    /// out, else the character index of the first word not rendered, from
    /// which a later call can resume. Every pixel outside the placed
    /// words' glyph boxes keeps its bytes; an empty text draws nothing.
    pub fn draw_text_in_rect(
        &mut self,
        string: &str,
        rect: Rect,
        font: &TextInfo,
        allow_overflow: bool,
    ) -> (resume: Option<usize>)
        requires
            old(self).wf(),
            font.wf(),
            rect.wf(),
        ensures
            final(self).wf(),
            old(self).same_dims(*final(self)),
            ({
                let mh = if allow_overflow {
                    old(self).spec_height() - rect.y
                } else {
                    rect.h as int
                };
                let (spp, sr) = wrap_text(
                    string@,
                    font.glyphs(),
                    rect.w as int,
                    font.line_height as int,
                    mh,
                );
                &&& match (resume, sr) {
                    (Some(a), Some(b)) => a == b,
                    (None, None) => true,
                    _ => false,
                }
                &&& forall|px: int, py: int|
                    pix_in_bounds(old(self).spec_width(), old(self).spec_height(), px, py)
                        && !wrapped_covers(
                        string@,
                        font.glyphs(),
                        spp,
                        rect,
                        font.line_height as int,
                        font.image.spec_width(),
                        font.image.spec_height(),
                        px,
                        py,
                    ) ==> pixel_unchanged(
                        old(self).fb(),
                        final(self).fb(),
                        old(self).spec_width(),
                        px,
                        py,
                    )
                &&& forall|px: int, py: int, pi: int, j: int|
                    pix_in_bounds(old(self).spec_width(), old(self).spec_height(), px, py) && 0
                        <= pi < spp.len() && spp[pi].0 <= j < spp[pi].1 && #[trigger] glyph_box_covers(
                        string@,
                        font.glyphs(),
                        spp[pi].0,
                        j,
                        rect.x + spp[pi].3,
                        rect.y + spp[pi].2 * (font.line_height as int),
                        font.image.spec_width(),
                        font.image.spec_height(),
                        px,
                        py,
                    ) && !later_placement_covers(
                        string@,
                        font.glyphs(),
                        spp,
                        rect,
                        font.line_height as int,
                        font.image.spec_width(),
                        font.image.spec_height(),
                        pi,
                        spp.len() as int,
                        px,
                        py,
                    ) ==> pixel_copied(
                        final(self).fb(),
                        old(self).spec_width(),
                        px,
                        py,
                        font.image.px(),
                        font.image.spec_width(),
                        font.glyphs()[string@[j]].x + (px - cursor_at(
                            string@,
                            font.glyphs(),
                            spp[pi].0,
                            j,
                            rect.x + spp[pi].3,
                        )),
                        font.glyphs()[string@[j]].y + (py - (rect.y + spp[pi].2 * (
                        font.line_height as int))),
                    )
            }),
    {
        let ghost gm = font.glyphs();
        let ghost lh = font.line_height as int;
        let ghost tw = font.image.spec_width();
        let ghost th = font.image.spec_height();
        let ghost w = self.spec_width();
        let ghost h = self.spec_height();
        let ghost fb0 = self.fb();
        proof {
            font.lemma_wf_glyphs();
            self.lemma_wf_len();
        }
        let max_h: i64 = if allow_overflow {
            self.height() as i64 - rect.y as i64
        } else {
            rect.h as i64
        };
        let (placements, resume) = layout_text(string, font, rect.w, max_h);
        let ghost spp = wrap_text(string@, gm, rect.w as int, lh, max_h as int).0;
        proof {
            if lh <= max_h {
                lemma_wrap_placement_bounds(
                    string@,
                    gm,
                    rect.w as int,
                    lh,
                    max_h as int,
                    0,
                    0,
                    0,
                    false,
                );
            }
        }
        let count = placements.len();
        let mut pi: usize = 0;
        while pi < count
            invariant
                self.wf(),
                w == self.spec_width(),
                h == self.spec_height(),
                fb0.len() == self.fb().len(),
                font.wf(),
                gm == font.glyphs(),
                glyphs_wf(gm),
                lh == font.line_height as int,
                0 <= lh,
                tw == font.image.spec_width(),
                th == font.image.spec_height(),
                count == placements@.len(),
                0 <= pi <= count,
                -0x1_0000_0000 <= max_h <= 0x1_0000_0000,
                placements_view(placements@) == spp,
                forall|qi: int|
                    0 <= qi < spp.len() ==> {
                        let p = #[trigger] spp[qi];
                        &&& 0 <= p.0 < p.1 <= string@.len()
                        &&& 0 <= p.2
                        &&& (p.2 + 1) * lh <= max_h
                        &&& 0 <= p.3 <= i32::MAX
                    },
                forall|px: int, py: int|
                    pix_in_bounds(w, h, px, py) && !wrapped_covers(
                        string@,
                        gm,
                        spp,
                        rect,
                        lh,
                        tw,
                        th,
                        px,
                        py,
                    ) ==> pixel_unchanged(fb0, self.fb(), w, px, py),
                forall|px: int, py: int, qi: int, j: int|
                    pix_in_bounds(w, h, px, py) && 0 <= qi < pi && spp[qi].0 <= j < spp[qi].1
                        && #[trigger] glyph_box_covers(
                        string@,
                        gm,
                        spp[qi].0,
                        j,
                        rect.x + spp[qi].3,
                        rect.y + spp[qi].2 * lh,
                        tw,
                        th,
                        px,
                        py,
                    ) && !later_placement_covers(
                        string@,
                        gm,
                        spp,
                        rect,
                        lh,
                        tw,
                        th,
                        qi,
                        pi as int,
                        px,
                        py,
                    ) ==> pixel_copied(
                        self.fb(),
                        w,
                        px,
                        py,
                        font.image.px(),
                        tw,
                        gm[string@[j]].x + (px - cursor_at(
                            string@,
                            gm,
                            spp[qi].0,
                            j,
                            rect.x + spp[qi].3,
                        )),
                        gm[string@[j]].y + (py - (rect.y + spp[qi].2 * lh)),
                    ),
            decreases count - pi,
        {
            let p = WordPlacement {
                start: placements[pi].start,
                end: placements[pi].end,
                line: placements[pi].line,
                x: placements[pi].x,
            };
            proof {
                assert(spp[pi as int] == (p.start as int, p.end as int, p.line as int, p.x as int));
            }
            let xx: i64 = rect.x as i64 + p.x as i64;
            let line_off: i64;
            if font.line_height > 0 {
                proof {
                    assert(p.line as int * lh <= (p.line as int + 1) * lh && p.line as int + 1
                        <= max_h as int && 0 <= p.line as int * lh) by (nonlinear_arith)
                        requires
                            (p.line as int + 1) * lh <= max_h as int,
                            lh >= 1,
                            p.line as int >= 0,
                    ;
                }
                line_off = (p.line as i64) * (font.line_height as i64);
            } else {
                proof {
                    let pl = spp[pi as int].2;
                    assert(pl * lh == 0) by (nonlinear_arith)
                        requires
                            lh == 0,
                    ;
                }
                line_off = 0;
            }
            let yy: i64 = rect.y as i64 + line_off;
            let ghost fbm = self.fb();
            self.draw_text_span(string, p.start, p.end, xx, yy, font);
            proof {
                assert forall|px: int, py: int|
                    pix_in_bounds(w, h, px, py) && !wrapped_covers(
                        string@,
                        gm,
                        spp,
                        rect,
                        lh,
                        tw,
                        th,
                        px,
                        py,
                    ) implies pixel_unchanged(fb0, self.fb(), w, px, py) by {
                    assert(pixel_unchanged(fb0, fbm, w, px, py));
                    assert forall|j: int| p.start <= j < p.end implies !(#[trigger] glyph_box_covers(
                        string@,
                        gm,
                        p.start as int,
                        j,
                        xx as int,
                        yy as int,
                        tw,
                        th,
                        px,
                        py,
                    )) by {
                        if glyph_box_covers(
                            string@,
                            gm,
                            p.start as int,
                            j,
                            xx as int,
                            yy as int,
                            tw,
                            th,
                            px,
                            py,
                        ) {
                            assert(xx as int == rect.x + spp[pi as int].3);
                            assert(yy as int == rect.y + spp[pi as int].2 * lh);
                            assert(wrapped_covers(string@, gm, spp, rect, lh, tw, th, px, py));
                        }
                    }
                }
                assert forall|px: int, py: int, qi: int, j: int|
                    pix_in_bounds(w, h, px, py) && 0 <= qi < pi + 1 && spp[qi].0 <= j < spp[qi].1
                        && #[trigger] glyph_box_covers(
                        string@,
                        gm,
                        spp[qi].0,
                        j,
                        rect.x + spp[qi].3,
                        rect.y + spp[qi].2 * lh,
                        tw,
                        th,
                        px,
                        py,
                    ) && !later_placement_covers(
                        string@,
                        gm,
                        spp,
                        rect,
                        lh,
                        tw,
                        th,
                        qi,
                        pi + 1,
                        px,
                        py,
                    ) implies pixel_copied(
                    self.fb(),
                    w,
                    px,
                    py,
                    font.image.px(),
                    tw,
                    gm[string@[j]].x + (px - cursor_at(string@, gm, spp[qi].0, j, rect.x + spp[qi].3)),
                    gm[string@[j]].y + (py - (rect.y + spp[qi].2 * lh)),
                ) by {
                    if qi == pi as int {
                        // this placement's own glyph: the span just drew it
                        assert(glyph_box_covers(
                            string@,
                            gm,
                            p.start as int,
                            j,
                            xx as int,
                            yy as int,
                            tw,
                            th,
                            px,
                            py,
                        ));
                    } else {
                        // an earlier placement's glyph: this span does not
                        // touch the pixel, else a later placement would
                        // cover it
                        assert(!later_placement_covers(
                            string@,
                            gm,
                            spp,
                            rect,
                            lh,
                            tw,
                            th,
                            qi,
                            pi as int,
                            px,
                            py,
                        ));
                        assert(pixel_copied(
                            fbm,
                            w,
                            px,
                            py,
                            font.image.px(),
                            tw,
                            gm[string@[j]].x + (px - cursor_at(
                                string@,
                                gm,
                                spp[qi].0,
                                j,
                                rect.x + spp[qi].3,
                            )),
                            gm[string@[j]].y + (py - (rect.y + spp[qi].2 * lh)),
                        ));
                        assert forall|j2: int|
                            p.start <= j2 < p.end implies !(#[trigger] glyph_box_covers(
                            string@,
                            gm,
                            p.start as int,
                            j2,
                            xx as int,
                            yy as int,
                            tw,
                            th,
                            px,
                            py,
                        )) by {
                            if glyph_box_covers(
                                string@,
                                gm,
                                p.start as int,
                                j2,
                                xx as int,
                                yy as int,
                                tw,
                                th,
                                px,
                                py,
                            ) {
                                assert(later_placement_covers(
                                    string@,
                                    gm,
                                    spp,
                                    rect,
                                    lh,
                                    tw,
                                    th,
                                    qi,
                                    pi + 1,
                                    px,
                                    py,
                                ));
                            }
                        }
                        assert(pixel_unchanged(fbm, self.fb(), w, px, py));
                    }
                }
            }
            pi = pi + 1;
        }
        resume
    }

    /// Draws `string` left to right starting at `pos`; see
    /// [`Screen::draw_text_span`]. Unknown characters are skipped and do
    /// not advance the cursor.
    pub fn draw_text_at_pos(&mut self, string: &str, pos: Vec2, font: &TextInfo)
        requires
            old(self).wf(),
            font.wf(),
        ensures
            final(self).wf(),
            old(self).same_dims(*final(self)),
            forall|px: int, py: int, j: int|
                pix_in_bounds(old(self).spec_width(), old(self).spec_height(), px, py) && 0 <= j
                    < string@.len() && #[trigger] glyph_box_covers(
                    string@,
                    font.glyphs(),
                    0,
                    j,
                    pos.x as int,
                    pos.y as int,
                    font.image.spec_width(),
                    font.image.spec_height(),
                    px,
                    py,
                ) ==> pixel_copied(
                    final(self).fb(),
                    old(self).spec_width(),
                    px,
                    py,
                    font.image.px(),
                    font.image.spec_width(),
                    font.glyphs()[string@[j]].x + (px - cursor_at(
                        string@,
                        font.glyphs(),
                        0,
                        j,
                        pos.x as int,
                    )),
                    font.glyphs()[string@[j]].y + (py - pos.y),
                ),
            forall|px: int, py: int|
                pix_in_bounds(old(self).spec_width(), old(self).spec_height(), px, py) && (forall|
                    j: int,
                |
                    0 <= j < string@.len() ==> !(#[trigger] glyph_box_covers(
                        string@,
                        font.glyphs(),
                        0,
                        j,
                        pos.x as int,
                        pos.y as int,
                        font.image.spec_width(),
                        font.image.spec_height(),
                        px,
                        py,
                    ))) ==> pixel_unchanged(
                    old(self).fb(),
                    final(self).fb(),
                    old(self).spec_width(),
                    px,
                    py,
                ),
    {
        let n = string.unicode_len();
        self.draw_text_span(string, 0, n, pos.x as i64, pos.y as i64, font);
    }
}

} // verus!
