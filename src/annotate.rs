//! The line annotator. A line is first split into typed spans (code tokens,
//! string literals, a trailing comment), with bracket depth carried across
//! the lines of one pass; then search marks are laid over every span but the
//! comment. The runs of a line cover it exactly, in order.

use vstd::prelude::*;
use crate::lexer::{
    class_of, comment_prefix, is_word_char, lang_of_hint, word_char, classify, Lang, TokenClass,
};
use crate::search::{match_at, matches_at};
use crate::text::{chars_of, lower_chars, lowered, views};
use vstd::slice::slice_subrange;

verus! {

/// Number of colors in the bracket palette.
pub const PALETTE_SIZE: usize = 5;

/// How a run is colored.
#[derive(Clone, Copy, Debug, PartialEq, Eq, Structural)]
pub enum Style {
    Text,
    Keyword,
    Literal,
    Number,
    Str,
    Comment,
    /// A bracket, with its index into the bracket palette.
    Bracket(usize),
}

/// Search emphasis laid over a run.
#[derive(Clone, Copy, Debug, PartialEq, Eq, Structural)]
pub enum Mark {
    Clear,
    Match,
    Current,
}

/// A styled piece of a line: the characters `start..end` of the line.
#[derive(Clone, Copy, Debug, PartialEq, Eq, Structural)]
pub struct Run {
    pub start: usize,
    pub end: usize,
    pub style: Style,
    pub mark: Mark,
}

/// Run `j` of `rs` starts where run `j - 1` ends.
pub open spec fn joins(rs: Seq<Run>, j: int) -> bool {
    rs[j].start == rs[j - 1].end
}

/// `rs` covers the positions `lo..hi` in order, each run non-empty and each
/// starting where the one before it ends.
pub open spec fn tiles(rs: Seq<Run>, lo: int, hi: int) -> bool {
    if rs.len() == 0 {
        lo == hi
    } else {
        &&& rs[0].start == lo
        &&& rs.last().end == hi
        &&& forall|j: int| 0 <= j < rs.len() ==> (#[trigger] rs[j]).start < rs[j].end
        &&& forall|j: int| 0 < j < rs.len() ==> #[trigger] joins(rs, j)
    }
}

/// The text of the runs `rs` of `line`, one after the other.
pub open spec fn concat_text(line: Seq<char>, rs: Seq<Run>) -> Seq<char>
    decreases rs.len(),
{
    if rs.len() == 0 {
        Seq::empty()
    } else {
        concat_text(line, rs.drop_last()) + line.subrange(
            rs.last().start as int,
            rs.last().end as int,
        )
    }
}

pub open spec fn is_open(c: char) -> bool {
    c == '(' || c == '[' || c == '{'
}

pub open spec fn is_close(c: char) -> bool {
    c == ')' || c == ']' || c == '}'
}

/// Bracket depth after `c` at depth `d`: an opener deepens, a closer
/// leaves one level but never goes below zero.
pub open spec fn depth_after(c: char, d: int) -> int {
    if is_open(c) {
        d + 1
    } else if is_close(c) {
        if d > 0 {
            d - 1
        } else {
            0
        }
    } else {
        d
    }
}

/// Palette index of bracket `c` at depth `d`: an opener takes the depth
/// before it, a closer the depth after it, so that pairs match.
pub open spec fn bracket_slot(c: char, d: int) -> int {
    if is_open(c) {
        d % (PALETTE_SIZE as int)
    } else {
        depth_after(c, d) % (PALETTE_SIZE as int)
    }
}

/// End of the word that continues at `i`, within `..k`, where `w` flags
/// the word characters of the line.
pub open spec fn word_end(w: Seq<bool>, i: int, k: int) -> int
    decreases k - i,
{
    if i < k && w[i] {
        word_end(w, i + 1, k)
    } else {
        i
    }
}

/// End of a string literal whose body starts at `i`: just past the closing
/// quote, or `k` when the literal is not closed before it.
pub open spec fn string_end(line: Seq<char>, i: int, k: int) -> int
    decreases k - i,
{
    if i >= k {
        k
    } else if line[i] == '"' {
        i + 1
    } else {
        string_end(line, i + 1, k)
    }
}

/// End of the code token that starts at `i`: a string literal, a word, or a
/// single other character.
pub open spec fn token_end(line: Seq<char>, w: Seq<bool>, i: int, k: int) -> int {
    if line[i] == '"' {
        string_end(line, i + 1, k)
    } else if w[i] {
        word_end(w, i, k)
    } else {
        i + 1
    }
}

pub open spec fn style_of_class(c: TokenClass) -> Style {
    match c {
        TokenClass::Keyword => Style::Keyword,
        TokenClass::Literal => Style::Literal,
        TokenClass::Number => Style::Number,
        TokenClass::Plain => Style::Text,
    }
}

/// Style of the code token `i..j` at bracket depth `d`; `w` flags the word
/// characters of the line and `ll` holds the lower-case mappings of its
/// characters.
pub open spec fn token_style(
    line: Seq<char>,
    w: Seq<bool>,
    ll: Seq<Seq<char>>,
    i: int,
    j: int,
    lang: Lang,
    d: int,
) -> Style {
    let c = line[i];
    if c == '"' {
        Style::Str
    } else if w[i] {
        style_of_class(class_of(lang, line.subrange(i, j), ll.subrange(i, j)))
    } else if is_open(c) || is_close(c) {
        Style::Bracket(bracket_slot(c, d) as usize)
    } else {
        Style::Text
    }
}

/// Spans of the code `i..k` of `line`, from bracket depth `d`, and the depth
/// after them.
pub open spec fn code_spans(
    line: Seq<char>,
    w: Seq<bool>,
    ll: Seq<Seq<char>>,
    k: int,
    lang: Lang,
    i: int,
    d: int,
) -> (Seq<Run>, int)
    decreases k - i,
{
    if i < 0 || i >= k {
        (Seq::empty(), d)
    } else {
        let j = token_end(line, w, i, k);
        if j <= i || j > k {
            (Seq::empty(), d)
        } else {
            let rest = code_spans(line, w, ll, k, lang, j, depth_after(line[i], d));
            (
                seq![
                    Run {
                        start: i as usize,
                        end: j as usize,
                        style: token_style(line, w, ll, i, j, lang, d),
                        mark: Mark::Clear,
                    },
                ] + rest.0,
                rest.1,
            )
        }
    }
}

/// `p` occurs in `line` at `i`, exactly.
pub open spec fn occurs_at(line: Seq<char>, p: Seq<char>, i: int) -> bool {
    &&& 0 <= i
    &&& i + p.len() <= line.len()
    &&& forall|k: int| 0 <= k < p.len() ==> #[trigger] line[i + k] == p[k]
}

/// First position from `i` on where `p` occurs in `line`, or the line's
/// length where it does not.
pub open spec fn find_from(line: Seq<char>, p: Seq<char>, i: int) -> int
    decreases line.len() - i,
{
    if i < 0 || i + p.len() > line.len() {
        line.len() as int
    } else if occurs_at(line, p, i) {
        i
    } else {
        find_from(line, p, i + 1)
    }
}

/// Where the trailing comment of `line` starts; the line's length where
/// there is none.
pub open spec fn comment_start(line: Seq<char>, lang: Lang) -> int {
    if comment_prefix(lang).len() == 0 {
        line.len() as int
    } else {
        find_from(line, comment_prefix(lang), 0)
    }
}

/// The typed spans of `line`, before any search marks, and the bracket
/// depth after it. Without syntax coloring the line is one plain span.
pub open spec fn line_spans(
    line: Seq<char>,
    w: Seq<bool>,
    ll: Seq<Seq<char>>,
    lang: Lang,
    syntax: bool,
    d: int,
) -> (Seq<Run>, int) {
    if !syntax {
        (
            if line.len() > 0 {
                seq![Run { start: 0, end: line.len() as usize, style: Style::Text, mark: Mark::Clear }]
            } else {
                Seq::empty()
            },
            d,
        )
    } else {
        let k = comment_start(line, lang);
        let code = code_spans(line, w, ll, k, lang, 0, d);
        (
            code.0 + if k < line.len() {
                seq![
                    Run {
                        start: k as usize,
                        end: line.len() as usize,
                        style: Style::Comment,
                        mark: Mark::Clear,
                    },
                ]
            } else {
                Seq::empty()
            },
            code.1,
        )
    }
}

/// Emphasis of the match with global ordinal `c` when `cur` is current.
pub open spec fn mark_for(c: int, cur: int) -> Mark {
    if c == cur {
        Mark::Current
    } else {
        Mark::Match
    }
}

/// Runs of the span `p..e` in `style` with the matches of `lq` marked, the
/// scan standing at `i`; matches are numbered on from `c`. Also the number
/// after the last match.
pub open spec fn search_runs(
    ll: Seq<Seq<char>>,
    e: int,
    style: Style,
    lq: Seq<Seq<char>>,
    cur: int,
    c: int,
    p: int,
    i: int,
) -> (Seq<Run>, int)
    decreases e - i,
{
    if lq.len() == 0 || i + lq.len() > e {
        (
            if p < e {
                seq![Run { start: p as usize, end: e as usize, style, mark: Mark::Clear }]
            } else {
                Seq::empty()
            },
            c,
        )
    } else if matches_at(ll, lq, i) {
        let m = i + lq.len();
        let rest = search_runs(ll, e, style, lq, cur, c + 1, m, m);
        (
            (if p < i {
                seq![Run { start: p as usize, end: i as usize, style, mark: Mark::Clear }]
            } else {
                Seq::empty()
            }) + seq![Run { start: i as usize, end: m as usize, style, mark: mark_for(c, cur) }]
                + rest.0,
            rest.1,
        )
    } else {
        search_runs(ll, e, style, lq, cur, c, p, i + 1)
    }
}

/// The span `r` with search marks laid over it; a comment is left as it is.
pub open spec fn mark_span(ll: Seq<Seq<char>>, r: Run, lq: Seq<Seq<char>>, cur: int, c: int) -> (Seq<
    Run,
>, int) {
    if r.style == Style::Comment {
        (seq![r], c)
    } else {
        search_runs(ll, r.end as int, r.style, lq, cur, c, r.start as int, r.start as int)
    }
}

/// The spans `spans` with search marks, matches numbered on from `c`.
pub open spec fn mark_spans(ll: Seq<Seq<char>>, spans: Seq<Run>, lq: Seq<Seq<char>>, cur: int, c: int) -> (Seq<
    Run,
>, int)
    decreases spans.len(),
{
    if spans.len() == 0 {
        (Seq::empty(), c)
    } else {
        let before = mark_spans(ll, spans.drop_last(), lq, cur, c);
        let last = mark_span(ll, spans.last(), lq, cur, before.1);
        (before.0 + last.0, last.1)
    }
}

/// The annotation of one line from the word-character flags `w` and the
/// lower-case mappings `ll` of its characters and `lq` of the query: its
/// runs, the bracket depth after it, and the number of matches seen once it
/// is done.
pub open spec fn annotate_runs(
    line: Seq<char>,
    w: Seq<bool>,
    ll: Seq<Seq<char>>,
    lq: Seq<Seq<char>>,
    lang: Lang,
    syntax: bool,
    cur: int,
    d: int,
    c: int,
) -> (Seq<Run>, int, int) {
    let spans = line_spans(line, w, ll, lang, syntax, d);
    let marked = mark_spans(ll, spans.0, lq, cur, c);
    (marked.0, spans.1, marked.1)
}

/// Which characters of `line` belong to word-like tokens.
pub open spec fn word_flags(line: Seq<char>) -> Seq<bool> {
    line.map_values(|c: char| is_word_char(c))
}

/// The annotation of one line with query `q`: its runs, the bracket depth
/// after it, and the number of matches seen once it is done.
pub open spec fn line_runs(
    line: Seq<char>,
    lang: Lang,
    syntax: bool,
    q: Seq<char>,
    cur: int,
    d: int,
    c: int,
) -> (Seq<Run>, int, int) {
    annotate_runs(line, word_flags(line), lowered(line), lowered(q), lang, syntax, cur, d, c)
}

proof fn lemma_word_end(w: Seq<bool>, i: int, k: int)
    requires
        i <= k,
    ensures
        i <= word_end(w, i, k) <= k,
        i < k && w[i] ==> i < word_end(w, i, k),
    decreases k - i,
{
    if i < k && w[i] {
        lemma_word_end(w, i + 1, k);
    }
}

proof fn lemma_string_end(line: Seq<char>, i: int, k: int)
    requires
        i <= k,
    ensures
        i <= string_end(line, i, k) <= k,
    decreases k - i,
{
    if i < k && line[i] != '"' {
        lemma_string_end(line, i + 1, k);
    }
}

proof fn lemma_token_end(line: Seq<char>, w: Seq<bool>, i: int, k: int)
    requires
        0 <= i < k,
    ensures
        i < token_end(line, w, i, k) <= k,
{
    lemma_word_end(w, i, k);
    lemma_string_end(line, i + 1, k);
}

proof fn lemma_tiles_append(a: Seq<Run>, b: Seq<Run>, lo: int, m: int, hi: int)
    requires
        tiles(a, lo, m),
        tiles(b, m, hi),
    ensures
        tiles(a + b, lo, hi),
{
    let ab = a + b;
    if a.len() == 0 {
        assert(ab =~= b);
    } else if b.len() == 0 {
        assert(ab =~= a);
    } else {
        assert forall|j: int| 0 <= j < ab.len() implies (#[trigger] ab[j]).start < ab[j].end by {
            if j < a.len() {
                assert(ab[j] == a[j]);
            } else {
                assert(ab[j] == b[j - a.len()]);
            }
        }
        assert forall|j: int| 0 < j < ab.len() implies #[trigger] joins(ab, j) by {
            if j < a.len() {
                assert(ab[j] == a[j]);
                assert(ab[j - 1] == a[j - 1]);
                assert(joins(a, j));
            } else if j == a.len() {
                assert(ab[j] == b[0]);
                assert(ab[j - 1] == a[a.len() - 1]);
            } else {
                assert(ab[j] == b[j - a.len()]);
                assert(ab[j - 1] == b[j - 1 - a.len()]);
                assert(joins(b, j - a.len()));
            }
        }
        assert(ab[0] == a[0]);
        assert(ab.last() == b.last());
    }
}

proof fn lemma_tiles_single(r: Run)
    requires
        r.start < r.end,
    ensures
        tiles(seq![r], r.start as int, r.end as int),
{
}

proof fn lemma_tiles_drop_last(rs: Seq<Run>, lo: int, hi: int)
    requires
        tiles(rs, lo, hi),
        rs.len() > 0,
    ensures
        tiles(rs.drop_last(), lo, rs.last().start as int),
        lo <= rs.last().start < hi,
    decreases rs.len(),
{
    let d = rs.drop_last();
    if d.len() > 0 {
        assert(d.last() == rs[rs.len() - 2]);
        assert(joins(rs, rs.len() - 1));
        assert forall|j: int| 0 <= j < d.len() implies (#[trigger] d[j]).start < d[j].end by {
            assert(d[j] == rs[j]);
        }
        assert forall|j: int| 0 < j < d.len() implies #[trigger] joins(d, j) by {
            assert(d[j] == rs[j]);
            assert(d[j - 1] == rs[j - 1]);
            assert(joins(rs, j));
        }
        lemma_tiles_drop_last(d, lo, rs.last().start as int);
        assert(rs[rs.len() - 1].start < rs[rs.len() - 1].end);
    }
}

/// Runs that cover `lo..hi` of a line, in order, spell out exactly that
/// part of it.
pub proof fn lemma_concat_tiles(line: Seq<char>, rs: Seq<Run>, lo: int, hi: int)
    requires
        tiles(rs, lo, hi),
        0 <= lo,
        hi <= line.len(),
    ensures
        concat_text(line, rs) == line.subrange(lo, hi),
    decreases rs.len(),
{
    if rs.len() > 0 {
        lemma_tiles_drop_last(rs, lo, hi);
        lemma_concat_tiles(line, rs.drop_last(), lo, rs.last().start as int);
        assert(line.subrange(lo, rs.last().start as int) + line.subrange(
            rs.last().start as int,
            hi,
        ) =~= line.subrange(lo, hi));
    }
}

/// Every run of `rs` is free of search marks.
pub open spec fn all_clear(rs: Seq<Run>) -> bool {
    forall|j: int| 0 <= j < rs.len() ==> (#[trigger] rs[j]).mark == Mark::Clear
}

proof fn lemma_code_spans(
    line: Seq<char>,
    w: Seq<bool>,
    ll: Seq<Seq<char>>,
    k: int,
    lang: Lang,
    i: int,
    d: int,
)
    requires
        0 <= i <= k <= line.len(),
        line.len() <= usize::MAX,
    ensures
        tiles(code_spans(line, w, ll, k, lang, i, d).0, i, k),
        all_clear(code_spans(line, w, ll, k, lang, i, d).0),
    decreases k - i,
{
    if i < k {
        let j = token_end(line, w, i, k);
        lemma_token_end(line, w, i, k);
        let r = Run {
            start: i as usize,
            end: j as usize,
            style: token_style(line, w, ll, i, j, lang, d),
            mark: Mark::Clear,
        };
        let rest = code_spans(line, w, ll, k, lang, j, depth_after(line[i], d));
        lemma_code_spans(line, w, ll, k, lang, j, depth_after(line[i], d));
        lemma_tiles_single(r);
        lemma_tiles_append(seq![r], rest.0, i, j, k);
        let all = seq![r] + rest.0;
        assert forall|m: int| 0 <= m < all.len() implies (#[trigger] all[m]).mark
            == Mark::Clear by {
            if m > 0 {
                assert(all[m] == rest.0[m - 1]);
            }
        }
    }
}

proof fn lemma_find_from(line: Seq<char>, p: Seq<char>, i: int)
    requires
        0 <= i,
    ensures
        0 <= find_from(line, p, i) <= line.len(),
    decreases line.len() - i,
{
    if i + p.len() <= line.len() && !occurs_at(line, p, i) {
        lemma_find_from(line, p, i + 1);
    }
}

proof fn lemma_line_spans(
    line: Seq<char>,
    w: Seq<bool>,
    ll: Seq<Seq<char>>,
    lang: Lang,
    syntax: bool,
    d: int,
)
    requires
        line.len() <= usize::MAX,
    ensures
        tiles(line_spans(line, w, ll, lang, syntax, d).0, 0, line.len() as int),
        all_clear(line_spans(line, w, ll, lang, syntax, d).0),
{
    if syntax {
        let k = comment_start(line, lang);
        lemma_find_from(line, comment_prefix(lang), 0);
        lemma_code_spans(line, w, ll, k, lang, 0, d);
        let code = code_spans(line, w, ll, k, lang, 0, d).0;
        if k < line.len() {
            let r = Run {
                start: k as usize,
                end: line.len() as usize,
                style: Style::Comment,
                mark: Mark::Clear,
            };
            lemma_tiles_append(code, seq![r], 0, k, line.len() as int);
            let all = code + seq![r];
            assert forall|m: int| 0 <= m < all.len() implies (#[trigger] all[m]).mark
                == Mark::Clear by {
                if m < code.len() {
                    assert(all[m] == code[m]);
                }
            }
        } else {
            assert(code + Seq::<Run>::empty() =~= code);
        }
    }
}

proof fn lemma_search_runs(
    ll: Seq<Seq<char>>,
    e: int,
    style: Style,
    lq: Seq<Seq<char>>,
    cur: int,
    c: int,
    p: int,
    i: int,
)
    requires
        0 <= p <= i <= e <= usize::MAX,
    ensures
        tiles(search_runs(ll, e, style, lq, cur, c, p, i).0, p, e),
        c <= search_runs(ll, e, style, lq, cur, c, p, i).1 <= c + (e - i),
    decreases e - i,
{
    if lq.len() == 0 || i + lq.len() > e {
    } else if matches_at(ll, lq, i) {
        let m = i + lq.len();
        lemma_search_runs(ll, e, style, lq, cur, c + 1, m, m);
        let rest = search_runs(ll, e, style, lq, cur, c + 1, m, m);
        let pre = if p < i {
            seq![Run { start: p as usize, end: i as usize, style, mark: Mark::Clear }]
        } else {
            Seq::empty()
        };
        let hit = Run { start: i as usize, end: m as usize, style, mark: mark_for(c, cur) };
        lemma_tiles_single(hit);
        lemma_tiles_append(pre, seq![hit], p, i, m);
        lemma_tiles_append(pre + seq![hit], rest.0, p, m, e);
    } else {
        lemma_search_runs(ll, e, style, lq, cur, c, p, i + 1);
    }
}

proof fn lemma_mark_spans(ll: Seq<Seq<char>>, spans: Seq<Run>, lq: Seq<Seq<char>>, cur: int, c: int, lo: int, hi: int)
    requires
        tiles(spans, lo, hi),
        0 <= lo,
        hi <= usize::MAX,
    ensures
        tiles(mark_spans(ll, spans, lq, cur, c).0, lo, hi),
        c <= mark_spans(ll, spans, lq, cur, c).1 <= c + (hi - lo),
    decreases spans.len(),
{
    if spans.len() > 0 {
        let r = spans.last();
        lemma_tiles_drop_last(spans, lo, hi);
        lemma_mark_spans(ll, spans.drop_last(), lq, cur, c, lo, r.start as int);
        let before = mark_spans(ll, spans.drop_last(), lq, cur, c);
        assert(r.start < r.end);
        if r.style != Style::Comment {
            lemma_search_runs(ll, r.end as int, r.style, lq, cur, before.1, r.start as int, r.start as int);
        }
        lemma_tiles_append(before.0, mark_span(ll, r, lq, cur, before.1).0, lo, r.start as int, hi);
    }
}

proof fn lemma_annotate_tiles(
    line: Seq<char>,
    w: Seq<bool>,
    ll: Seq<Seq<char>>,
    lq: Seq<Seq<char>>,
    lang: Lang,
    syntax: bool,
    cur: int,
    d: int,
    c: int,
)
    requires
        line.len() <= usize::MAX,
    ensures
        tiles(annotate_runs(line, w, ll, lq, lang, syntax, cur, d, c).0, 0, line.len() as int),
        concat_text(line, annotate_runs(line, w, ll, lq, lang, syntax, cur, d, c).0) == line,
        c <= annotate_runs(line, w, ll, lq, lang, syntax, cur, d, c).2 <= c + line.len(),
{
    lemma_line_spans(line, w, ll, lang, syntax, d);
    let spans = line_spans(line, w, ll, lang, syntax, d).0;
    lemma_mark_spans(ll, spans, lq, cur, c, 0, line.len() as int);
    let runs = annotate_runs(line, w, ll, lq, lang, syntax, cur, d, c).0;
    lemma_concat_tiles(line, runs, 0, line.len() as int);
    assert(line.subrange(0, line.len() as int) =~= line);
}

/// The runs of a line cover it exactly: their texts, one after the other,
/// give back the line, whatever the language, the switches, the query and
/// the state carried in from earlier lines.
pub proof fn lemma_lossless(
    line: Seq<char>,
    lang: Lang,
    syntax: bool,
    q: Seq<char>,
    cur: int,
    d: int,
    c: int,
)
    requires
        line.len() <= usize::MAX,
    ensures
        tiles(line_runs(line, lang, syntax, q, cur, d, c).0, 0, line.len() as int),
        concat_text(line, line_runs(line, lang, syntax, q, cur, d, c).0) == line,
{
    lemma_annotate_tiles(line, word_flags(line), lowered(line), lowered(q), lang, syntax, cur, d, c);
}

proof fn lemma_mark_spans_empty_query(ll: Seq<Seq<char>>, spans: Seq<Run>, cur: int, c: int)
    requires
        all_clear(spans),
        forall|j: int| 0 <= j < spans.len() ==> (#[trigger] spans[j]).start < spans[j].end,
    ensures
        mark_spans(ll, spans, Seq::empty(), cur, c) == (spans, c),
    decreases spans.len(),
{
    if spans.len() > 0 {
        let d = spans.drop_last();
        assert forall|j: int| 0 <= j < d.len() implies (#[trigger] d[j]).start < d[j].end by {
            assert(d[j] == spans[j]);
        }
        lemma_mark_spans_empty_query(ll, d, cur, c);
        let r = spans.last();
        assert(r.mark == Mark::Clear);
        assert(r.start < r.end);
        assert(d + seq![r] =~= spans);
    }
}

/// An empty query marks nothing: the annotation is run for run the typed
/// spans of the line, as with search switched off, and no match is counted.
pub proof fn lemma_empty_query(line: Seq<char>, lang: Lang, syntax: bool, cur: int, d: int, c: int)
    requires
        line.len() <= usize::MAX,
    ensures
        line_runs(line, lang, syntax, Seq::empty(), cur, d, c) == (
            line_spans(line, word_flags(line), lowered(line), lang, syntax, d).0,
            line_spans(line, word_flags(line), lowered(line), lang, syntax, d).1,
            c,
        ),
{
    let w = word_flags(line);
    let ll = lowered(line);
    assert(lowered(Seq::<char>::empty()) =~= Seq::<Seq<char>>::empty());
    lemma_line_spans(line, w, ll, lang, syntax, d);
    let spans = line_spans(line, w, ll, lang, syntax, d).0;
    if spans.len() > 0 {
        assert forall|j: int| 0 <= j < spans.len() implies (#[trigger] spans[j]).start
            < spans[j].end by {}
    }
    lemma_mark_spans_empty_query(ll, spans, cur, c);
}

proof fn lemma_tiles_bounds(rs: Seq<Run>, lo: int, hi: int)
    requires
        tiles(rs, lo, hi),
    ensures
        forall|j: int| 0 <= j < rs.len() ==> lo <= (#[trigger] rs[j]).start && rs[j].end <= hi,
    decreases rs.len(),
{
    if rs.len() > 0 {
        lemma_tiles_drop_last(rs, lo, hi);
        let d = rs.drop_last();
        lemma_tiles_bounds(d, lo, rs.last().start as int);
        assert forall|j: int| 0 <= j < rs.len() implies lo <= (#[trigger] rs[j]).start
            && rs[j].end <= hi by {
            if j < rs.len() - 1 {
                assert(rs[j] == d[j]);
            }
        }
    }
}

/// Bracket depth and match count carried from line to line within one
/// annotation pass over a buffer; a new pass starts from zero.
#[derive(Clone, Copy, Debug, PartialEq, Eq, Structural)]
pub struct PassState {
    pub depth: usize,
    pub matches: usize,
}

impl PassState {
    /// The state at the top of a buffer.
    pub fn new() -> (r: PassState)
        ensures
            r.depth == 0,
            r.matches == 0,
    {
        PassState { depth: 0, matches: 0 }
    }
}

/// Whether `p` occurs in `line` at `i`.
fn occurs(line: &[char], p: &[char], i: usize) -> (r: bool)
    ensures
        r == occurs_at(line@, p@, i as int),
{
    let n = line.len();
    if p.len() > n || i > n - p.len() {
        return false;
    }
    let mut k: usize = 0;
    while k < p.len()
        invariant
            n == line@.len(),
            i + p@.len() <= n,
            k <= p@.len(),
            forall|j: int| 0 <= j < k ==> #[trigger] line@[i + j] == p@[j],
        decreases p@.len() - k,
    {
        if line[i + k] != p[k] {
            return false;
        }
        k += 1;
    }
    true
}

/// Where the comment introduced by `prefix` starts in `line`, or its length.
fn find_comment(line: &[char], prefix: &[char]) -> (r: usize)
    ensures
        r == if prefix@.len() == 0 {
            line@.len() as int
        } else {
            find_from(line@, prefix@, 0)
        },
{
    let n = line.len();
    if prefix.len() == 0 {
        return n;
    }
    let mut i: usize = 0;
    while i <= n && prefix.len() <= n - i
        invariant
            n == line@.len(),
            prefix@.len() > 0,
            i <= n,
            find_from(line@, prefix@, i as int) == find_from(line@, prefix@, 0),
        decreases n - i,
    {
        if occurs(line, prefix, i) {
            return i;
        }
        i += 1;
    }
    n
}

/// End of the word that continues at `i`, within `..k`.
fn scan_word(words: &[bool], i: usize, k: usize) -> (r: usize)
    requires
        i <= k <= words@.len(),
    ensures
        r == word_end(words@, i as int, k as int),
{
    let mut j = i;
    while j < k && words[j]
        invariant
            i <= j <= k <= words@.len(),
            word_end(words@, j as int, k as int) == word_end(words@, i as int, k as int),
        decreases k - j,
    {
        j += 1;
    }
    j
}

/// End of the string literal whose body starts at `i`, within `..k`.
fn scan_string(line: &[char], i: usize, k: usize) -> (r: usize)
    requires
        i <= k <= line@.len(),
    ensures
        r == string_end(line@, i as int, k as int),
{
    let mut j = i;
    while j < k && line[j] != '"'
        invariant
            i <= j <= k <= line@.len(),
            string_end(line@, j as int, k as int) == string_end(line@, i as int, k as int),
        decreases k - j,
    {
        j += 1;
    }
    if j < k {
        j + 1
    } else {
        k
    }
}

/// The style of a word of the given class.
pub fn word_style(c: TokenClass) -> (r: Style)
    ensures
        r == style_of_class(c),
{
    match c {
        TokenClass::Keyword => Style::Keyword,
        TokenClass::Literal => Style::Literal,
        TokenClass::Number => Style::Number,
        TokenClass::Plain => Style::Text,
    }
}

/// Appends the spans of the code `..k` of `line` to `out`, carrying the
/// bracket depth along.
fn split_code(
    line: &[char],
    words: &[bool],
    lower: &[Vec<char>],
    k: usize,
    lang: Lang,
    depth: &mut usize,
    out: &mut Vec<Run>,
)
    requires
        k <= line@.len(),
        words@.len() == line@.len(),
        lower@.len() == line@.len(),
        *old(depth) + k <= usize::MAX,
    ensures
        final(out)@ == old(out)@ + code_spans(line@, words@, views(lower@), k as int, lang, 0, *old(depth) as int).0,
        *final(depth) as int == code_spans(line@, words@, views(lower@), k as int, lang, 0, *old(depth) as int).1,
{
    let ghost out0 = out@;
    let ghost d0 = *depth as int;
    let ghost whole = code_spans(line@, words@, views(lower@), k as int, lang, 0, d0);
    let mut d: usize = *depth;
    let mut i: usize = 0;
    while i < k
        invariant
            k <= line@.len(),
            words@.len() == line@.len(),
            lower@.len() == line@.len(),
            i <= k,
            d <= d0 + i,
            d0 + k <= usize::MAX,
            whole == code_spans(line@, words@, views(lower@), k as int, lang, 0, d0),
            out@ + code_spans(line@, words@, views(lower@), k as int, lang, i as int, d as int).0 == out0 + whole.0,
            code_spans(line@, words@, views(lower@), k as int, lang, i as int, d as int).1 == whole.1,
        decreases k - i,
    {
        proof {
            lemma_token_end(line@, words@, i as int, k as int);
        }
        let c = line[i];
        let ghost rest = code_spans(
            line@,
            words@,
            views(lower@),
            k as int,
            lang,
            token_end(line@, words@, i as int, k as int),
            depth_after(c, d as int),
        );
        let j: usize;
        let style: Style;
        if c == '"' {
            j = scan_string(line, i + 1, k);
            style = Style::Str;
        } else if words[i] {
            j = scan_word(words, i, k);
            proof {
                assert(views(lower@).subrange(i as int, j as int) =~= views(
                    lower@.subrange(i as int, j as int),
                ));
            }
            style = word_style(
                classify(lang, slice_subrange(line, i, j), slice_subrange(lower, i, j)),
            );
        } else {
            j = i + 1;
            if c == '(' || c == '[' || c == '{' {
                style = Style::Bracket(d % PALETTE_SIZE);
            } else if c == ')' || c == ']' || c == '}' {
                if d > 0 {
                    style = Style::Bracket((d - 1) % PALETTE_SIZE);
                } else {
                    style = Style::Bracket(0);
                }
            } else {
                style = Style::Text;
            }
        }
        let r = Run { start: i, end: j, style, mark: Mark::Clear };
        assert(r.style == token_style(line@, words@, views(lower@), i as int, j as int, lang, d as int));
        assert(out@.push(r) + rest.0 =~= out@ + (seq![r] + rest.0));
        out.push(r);
        if c == '(' || c == '[' || c == '{' {
            d = d + 1;
        } else if c == ')' || c == ']' || c == '}' {
            if d > 0 {
                d = d - 1;
            }
        }
        i = j;
    }
    assert(out@ + Seq::<Run>::empty() =~= out@);
    *depth = d;
}

/// Appends the span `span` with search marks laid over it to `out`.
fn mark_one(
    ll: &[Vec<char>],
    span: Run,
    lq: &[Vec<char>],
    cur: usize,
    count: &mut usize,
    out: &mut Vec<Run>,
)
    requires
        span.start < span.end <= ll@.len(),
        *old(count) + (span.end - span.start) <= usize::MAX,
    ensures
        final(out)@ == old(out)@ + mark_span(views(ll@), span, views(lq@), cur as int, *old(count) as int).0,
        *final(count) as int == mark_span(views(ll@), span, views(lq@), cur as int, *old(count) as int).1,
        *final(count) <= *old(count) + (span.end - span.start),
{
    if span.style == Style::Comment {
        out.push(span);
        return;
    }
    let ghost out0 = out@;
    let ghost c0 = *count as int;
    let s = span.start;
    let e = span.end;
    let style = span.style;
    let ghost whole = search_runs(views(ll@), e as int, style, views(lq@), cur as int, c0, s as int, s as int);
    let mut c: usize = *count;
    let mut p: usize = s;
    let mut i: usize = s;
    while lq.len() > 0 && i <= e && lq.len() <= e - i
        invariant
            s <= p <= i <= e <= ll@.len(),
            c <= c0 + (i - s),
            c0 + (e - s) <= usize::MAX,
            whole == search_runs(views(ll@), e as int, style, views(lq@), cur as int, c0, s as int, s as int),
            out@ + search_runs(views(ll@), e as int, style, views(lq@), cur as int, c as int, p as int, i as int).0
                == out0 + whole.0,
            search_runs(views(ll@), e as int, style, views(lq@), cur as int, c as int, p as int, i as int).1
                == whole.1,
        decreases e - i,
    {
        if match_at(ll, lq, i) {
            let m = i + lq.len();
            let ghost rest = search_runs(views(ll@), e as int, style, views(lq@), cur as int, c + 1, m as int, m as int);
            let ghost pre: Seq<Run> = if p < i {
                seq![Run { start: p, end: i, style, mark: Mark::Clear }]
            } else {
                Seq::empty()
            };
            let hit = Run {
                start: i,
                end: m,
                style,
                mark: if c == cur {
                    Mark::Current
                } else {
                    Mark::Match
                },
            };
            let ghost before = out@;
            if p < i {
                out.push(Run { start: p, end: i, style, mark: Mark::Clear });
            }
            assert(out@ == before + pre);
            out.push(hit);
            assert(out@ + rest.0 =~= before + (pre + seq![hit] + rest.0));
            c = c + 1;
            p = m;
            i = m;
        } else {
            i = i + 1;
        }
    }
    let ghost before = out@;
    if p < e {
        out.push(Run { start: p, end: e, style, mark: Mark::Clear });
    } else {
        assert(before + Seq::<Run>::empty() =~= before);
    }
    *count = c;
}

/// The spans `spans` of `ll` with search marks, numbered on from `count`.
fn mark_all(ll: &[Vec<char>], spans: &Vec<Run>, lq: &[Vec<char>], cur: usize, count: &mut usize) -> (r: Vec<
    Run,
>)
    requires
        tiles(spans@, 0, ll@.len() as int),
        *old(count) + ll@.len() <= usize::MAX,
    ensures
        r@ == mark_spans(views(ll@), spans@, views(lq@), cur as int, *old(count) as int).0,
        *final(count) as int == mark_spans(views(ll@), spans@, views(lq@), cur as int, *old(count) as int).1,
{
    let ghost c0 = *count as int;
    let mut out: Vec<Run> = Vec::new();
    let mut c: usize = *count;
    let mut idx: usize = 0;
    assert(spans@.take(0) =~= Seq::<Run>::empty());
    proof {
        lemma_tiles_bounds(spans@, 0, ll@.len() as int);
    }
    while idx < spans.len()
        invariant
            tiles(spans@, 0, ll@.len() as int),
            c0 + ll@.len() <= usize::MAX,
            idx <= spans@.len(),
            out@ == mark_spans(views(ll@), spans@.take(idx as int), views(lq@), cur as int, c0).0,
            c as int == mark_spans(views(ll@), spans@.take(idx as int), views(lq@), cur as int, c0).1,
            idx < spans@.len() ==> c <= c0 + spans@[idx as int].start,
            forall|j: int| 0 <= j < spans@.len() ==> (#[trigger] spans@[j]).end <= ll@.len(),
        decreases spans@.len() - idx,
    {
        let r = spans[idx];
        assert(r.start < r.end);
        assert(spans@.take(idx + 1).drop_last() =~= spans@.take(idx as int));
        assert(spans@.take(idx + 1).last() == r);
        mark_one(ll, r, lq, cur, &mut c, &mut out);
        idx += 1;
        proof {
            if idx < spans.len() {
                assert(joins(spans@, idx as int));
            }
        }
    }
    assert(spans@.take(spans@.len() as int) =~= spans@);
    *count = c;
    out
}

/// Which characters of `line` belong to word-like tokens.
pub fn word_flags_of(line: &[char]) -> (r: Vec<bool>)
    ensures
        r@ == word_flags(line@),
{
    let mut r: Vec<bool> = Vec::new();
    let mut i: usize = 0;
    while i < line.len()
        invariant
            i <= line@.len(),
            r@ == word_flags(line@.take(i as int)),
        decreases line@.len() - i,
    {
        r.push(word_char(line[i]));
        assert(r@ =~= word_flags(line@.take(i + 1)));
        i += 1;
    }
    assert(line@.take(line@.len() as int) =~= line@);
    r
}

/// What one annotation pass applies to every line: the language, whether
/// syntax coloring runs, the search query and the ordinal of the current
/// match.
pub struct Annotator {
    pub lang: Lang,
    pub syntax: bool,
    pub query: Vec<char>,
    pub current: usize,
}

impl Annotator {
    /// Settings for a pass over a buffer whose extension hint is `hint`.
    pub fn new(hint: &str, query: &str, current: usize, syntax: bool) -> (r: Annotator)
        ensures
            r.lang == lang_of_hint(hint@),
            r.syntax == syntax,
            r.query@ == query@,
            r.current == current,
    {
        Annotator { lang: Lang::from_hint(hint), syntax, query: chars_of(query), current }
    }

    /// The typed spans of `line`, before search marks, carrying the bracket
    /// depth along; `words` flags the word characters of the line and `lower`
    /// holds the lower-case mappings of its characters.
    pub fn split_spans_with(
        &self,
        line: &[char],
        words: &[bool],
        lower: &[Vec<char>],
        depth: &mut usize,
    ) -> (r: Vec<Run>)
        requires
            words@.len() == line@.len(),
            lower@.len() == line@.len(),
            *old(depth) + line@.len() <= usize::MAX,
        ensures
            r@ == line_spans(line@, words@, views(lower@), self.lang, self.syntax, *old(depth) as int).0,
            *final(depth) as int == line_spans(
                line@,
                words@,
                views(lower@),
                self.lang,
                self.syntax,
                *old(depth) as int,
            ).1,
    {
        let n = line.len();
        let mut out: Vec<Run> = Vec::new();
        if !self.syntax {
            if n > 0 {
                out.push(Run { start: 0, end: n, style: Style::Text, mark: Mark::Clear });
            }
            assert(out@ =~= line_spans(
                line@,
                words@,
                views(lower@),
                self.lang,
                self.syntax,
                *old(depth) as int,
            ).0);
            return out;
        }
        let prefix = chars_of(self.lang.comment_prefix());
        let k = find_comment(line, prefix.as_slice());
        proof {
            lemma_find_from(line@, prefix@, 0);
        }
        split_code(line, words, lower, k, self.lang, depth, &mut out);
        assert(out@ =~= Seq::<Run>::empty() + out@);
        if k < n {
            out.push(Run { start: k, end: n, style: Style::Comment, mark: Mark::Clear });
        } else {
            assert(out@ + Seq::<Run>::empty() =~= out@);
        }
        out
    }

    /// The typed spans of `line`, before search marks, carrying the bracket
    /// depth along.
    pub fn split_spans(&self, line: &[char], depth: &mut usize) -> (r: Vec<Run>)
        requires
            *old(depth) + line@.len() <= usize::MAX,
        ensures
            r@ == line_spans(
                line@,
                word_flags(line@),
                lowered(line@),
                self.lang,
                self.syntax,
                *old(depth) as int,
            ).0,
            *final(depth) as int == line_spans(
                line@,
                word_flags(line@),
                lowered(line@),
                self.lang,
                self.syntax,
                *old(depth) as int,
            ).1,
    {
        let words = word_flags_of(line);
        let lower = lower_chars(line);
        self.split_spans_with(line, words.as_slice(), lower.as_slice(), depth)
    }

    /// Annotates one line of the pass from its word-character flags `words`
    /// and the lower-case mappings `lower` of its characters and
    /// `lower_query` of the query. `state` carries the bracket depth and the
    /// match count on to the next line.
    pub fn annotate_with(
        &self,
        line: &[char],
        words: &[bool],
        lower: &[Vec<char>],
        lower_query: &[Vec<char>],
        state: &mut PassState,
    ) -> (r: Vec<Run>)
        requires
            words@.len() == line@.len(),
            lower@.len() == line@.len(),
            old(state).depth + line@.len() <= usize::MAX,
            old(state).matches + line@.len() <= usize::MAX,
        ensures
            (r@, final(state).depth as int, final(state).matches as int) == annotate_runs(
                line@,
                words@,
                views(lower@),
                views(lower_query@),
                self.lang,
                self.syntax,
                self.current as int,
                old(state).depth as int,
                old(state).matches as int,
            ),
            concat_text(line@, r@) == line@,
    {
        let mut depth = state.depth;
        let spans = self.split_spans_with(line, words, lower, &mut depth);
        proof {
            lemma_line_spans(line@, words@, views(lower@), self.lang, self.syntax, state.depth as int);
            lemma_annotate_tiles(
                line@,
                words@,
                views(lower@),
                views(lower_query@),
                self.lang,
                self.syntax,
                self.current as int,
                state.depth as int,
                state.matches as int,
            );
        }
        let mut count = state.matches;
        let runs = mark_all(lower, &spans, lower_query, self.current, &mut count);
        state.depth = depth;
        state.matches = count;
        runs
    }

    /// Annotates one line of the pass: its runs, in order, covering the line
    /// exactly. `state` carries the bracket depth and the match count on to
    /// the next line.
    pub fn annotate_line(&self, line: &str, state: &mut PassState) -> (r: Vec<Run>)
        requires
            old(state).depth + line@.len() <= usize::MAX,
            old(state).matches + line@.len() <= usize::MAX,
        ensures
            (r@, final(state).depth as int, final(state).matches as int) == line_runs(
                line@,
                self.lang,
                self.syntax,
                self.query@,
                self.current as int,
                old(state).depth as int,
                old(state).matches as int,
            ),
            concat_text(line@, r@) == line@,
    {
        let cs = chars_of(line);
        let words = word_flags_of(cs.as_slice());
        let lower = lower_chars(cs.as_slice());
        let lower_query = lower_chars(self.query.as_slice());
        self.annotate_with(cs.as_slice(), words.as_slice(), lower.as_slice(), lower_query.as_slice(), state)
    }
}

} // verus!
