//! Case-insensitive substring search over a buffer: match positions, the
//! total count, the line of the current match, and wrap-around navigation.
//! Characters are compared under their lower-case mappings, one position per
//! character of the original text, so every position found is a position of
//! the original.

use vstd::prelude::*;
use crate::gate::HIGHLIGHT_CHAR_THRESHOLD;
use crate::text::{chars_of, count_newlines, line_of, lower_chars, lowered, same_chars, views};

verus! {

/// The query `q` occurs at position `i` of `t`, both given as the lower-case
/// mappings of their characters.
pub open spec fn matches_at(t: Seq<Seq<char>>, q: Seq<Seq<char>>, i: int) -> bool {
    &&& 0 <= i
    &&& i + q.len() <= t.len()
    &&& forall|k: int| 0 <= k < q.len() ==> #[trigger] t[i + k] == q[k]
}

/// Start positions of the successive matches of `q` in `t` from position `i`
/// on: the scan resumes just past each match, so matches never overlap.
/// An empty query has no matches.
pub open spec fn match_starts(t: Seq<Seq<char>>, q: Seq<Seq<char>>, i: int) -> Seq<int>
    decreases t.len() - i,
{
    if q.len() == 0 || i < 0 || i + q.len() > t.len() {
        Seq::empty()
    } else if matches_at(t, q, i) {
        seq![i] + match_starts(t, q, i + q.len())
    } else {
        match_starts(t, q, i + 1)
    }
}

/// Number of matches of `q` in the whole of `t`.
pub open spec fn match_count(t: Seq<Seq<char>>, q: Seq<Seq<char>>) -> nat {
    match_starts(t, q, 0).len()
}

/// Whether `q` occurs at `i` of `t`.
pub fn match_at(t: &[Vec<char>], q: &[Vec<char>], i: usize) -> (r: bool)
    ensures
        r == matches_at(views(t@), views(q@), i as int),
{
    let n = t.len();
    if q.len() > n || i > n - q.len() {
        return false;
    }
    let mut k: usize = 0;
    while k < q.len()
        invariant
            n == t@.len(),
            i + q@.len() <= n,
            k <= q@.len(),
            forall|j: int| 0 <= j < k ==> #[trigger] views(t@)[i + j] == views(q@)[j],
        decreases q@.len() - k,
    {
        assert(views(t@)[i + k] == t@[i + k]@ && views(q@)[k as int] == q@[k as int]@);
        if !same_chars(t[i + k].as_slice(), q[k].as_slice()) {
            return false;
        }
        k += 1;
    }
    true
}

/// Number of non-overlapping matches of `q` in `t`, both given as the
/// lower-case mappings of their characters.
pub fn count_matches(t: &[Vec<char>], q: &[Vec<char>]) -> (n: usize)
    ensures
        n == match_count(views(t@), views(q@)),
{
    if q.len() == 0 {
        return 0;
    }
    let mut n: usize = 0;
    let mut i: usize = 0;
    while i <= t.len() && q.len() <= t.len() - i
        invariant
            q@.len() > 0,
            i <= t@.len(),
            n <= i,
            n + match_starts(views(t@), views(q@), i as int).len() == match_starts(
                views(t@),
                views(q@),
                0,
            ).len(),
        decreases t@.len() - i,
    {
        if match_at(t, q, i) {
            n = n + 1;
            i = i + q.len();
        } else {
            i = i + 1;
        }
    }
    n
}

/// Line index, in `text`, of the match with ordinal `current` among the
/// matches of `lq` in `lt`; `None` when there is no such match.
pub open spec fn target_line(text: Seq<char>, lt: Seq<Seq<char>>, lq: Seq<Seq<char>>, current: int) -> Option<nat> {
    let starts = match_starts(lt, lq, 0);
    if 0 <= current < starts.len() {
        Some(line_of(text, starts[current]))
    } else {
        None
    }
}

/// The line of `text` that holds match number `current`, where `lt` and
/// `lq` are the lower-case mappings of the characters of `text` and of the
/// query.
pub fn locate_match(text: &[char], lt: &[Vec<char>], lq: &[Vec<char>], current: usize) -> (r: Option<usize>)
    requires
        lt@.len() == text@.len(),
    ensures
        r matches Some(l) ==> target_line(text@, views(lt@), views(lq@), current as int) == Some(l as nat),
        r is None ==> target_line(text@, views(lt@), views(lq@), current as int) is None,
{
    if lq.len() == 0 {
        return None;
    }
    let ghost t = views(lt@);
    let ghost q = views(lq@);
    let mut n: usize = 0;
    let mut i: usize = 0;
    let ghost mut found: Seq<int> = Seq::empty();
    while i <= lt.len() && lq.len() <= lt.len() - i
        invariant
            t == views(lt@),
            q == views(lq@),
            lt@.len() == text@.len(),
            q.len() > 0,
            i <= lt@.len(),
            n == found.len(),
            n <= current,
            found + match_starts(t, q, i as int) == match_starts(t, q, 0),
        decreases lt@.len() - i,
    {
        if match_at(lt, lq, i) {
            assert(match_starts(t, q, i as int)[0] == i as int);
            if n == current {
                assert((found + match_starts(t, q, i as int))[n as int] == i as int);
                assert(match_starts(t, q, 0)[current as int] == i as int);
                let l = count_newlines(text, i);
                return Some(l);
            }
            proof {
                assert(found + match_starts(t, q, i as int) =~= found.push(i as int) + match_starts(
                    t,
                    q,
                    i + q.len(),
                ));
                found = found.push(i as int);
            }
            n = n + 1;
            i = i + lq.len();
        } else {
            i = i + 1;
        }
    }
    assert(found =~= match_starts(t, q, 0));
    None
}

/// Finds the line that holds the current match, so that it can be scrolled
/// into view.
pub fn find_target_line(text: &str, query: &str, current: usize) -> (r: Option<usize>)
    ensures
        r matches Some(l) ==> target_line(text@, lowered(text@), lowered(query@), current as int)
            == Some(l as nat),
        r is None ==> target_line(text@, lowered(text@), lowered(query@), current as int) is None,
{
    let t = chars_of(text);
    let q = chars_of(query);
    let lt = lower_chars(t.as_slice());
    let lq = lower_chars(q.as_slice());
    locate_match(t.as_slice(), lt.as_slice(), lq.as_slice(), current)
}

/// Total number of matches of `query` in `text`, ignoring case, counted only
/// where the buffer is small enough for highlighting; zero for an empty
/// query.
pub fn recompute_count(query: &str, text: &str) -> (n: usize)
    ensures
        n == if query@.len() > 0 && text.len() <= HIGHLIGHT_CHAR_THRESHOLD {
            match_count(lowered(text@), lowered(query@))
        } else {
            0
        },
{
    if query.is_empty() || text.len() > HIGHLIGHT_CHAR_THRESHOLD {
        return 0;
    }
    let t = chars_of(text);
    let q = chars_of(query);
    let lt = lower_chars(t.as_slice());
    let lq = lower_chars(q.as_slice());
    count_matches(lt.as_slice(), lq.as_slice())
}

/// Search results for the current query: how many matches there are and
/// which one is current.
#[derive(Clone, Copy, Debug, PartialEq, Eq, Structural)]
pub struct SearchState {
    pub total: usize,
    pub current: usize,
}

impl SearchState {
    /// The current ordinal lies among the matches, or is zero when there
    /// are none.
    pub open spec fn wf(self) -> bool {
        if self.total == 0 {
            self.current == 0
        } else {
            self.current < self.total
        }
    }

    /// No query: no matches.
    pub fn new() -> (r: SearchState)
        ensures
            r.total == 0,
            r.current == 0,
            r.wf(),
    {
        SearchState { total: 0, current: 0 }
    }

    /// Fresh state for a changed query or buffer: counts the matches again
    /// and makes the first one current.
    pub fn recompute(query: &str, text: &str) -> (r: SearchState)
        ensures
            r.total == if query@.len() > 0 && text.len() <= HIGHLIGHT_CHAR_THRESHOLD {
                match_count(lowered(text@), lowered(query@))
            } else {
                0
            },
            r.current == 0,
            r.wf(),
    {
        SearchState { total: recompute_count(query, text), current: 0 }
    }

    /// Moves to the next match, wrapping from the last to the first; does
    /// nothing when there are no matches.
    pub fn next(&mut self)
        requires
            old(self).wf(),
        ensures
            final(self).wf(),
            final(self).total == old(self).total,
            final(self).current == if old(self).total == 0 {
                old(self).current
            } else {
                ((old(self).current + 1) % (old(self).total as int)) as usize
            },
    {
        if self.total > 0 {
            self.current = (self.current + 1) % self.total;
        }
    }

    /// Moves to the previous match, wrapping from the first to the last;
    /// does nothing when there are no matches.
    pub fn prev(&mut self)
        requires
            old(self).wf(),
        ensures
            final(self).wf(),
            final(self).total == old(self).total,
            final(self).current == if old(self).total == 0 {
                old(self).current
            } else if old(self).current == 0 {
                (old(self).total - 1) as usize
            } else {
                (old(self).current - 1) as usize
            },
    {
        if self.total > 0 {
            if self.current == 0 {
                self.current = self.total - 1;
            } else {
                self.current = self.current - 1;
            }
        }
    }
}

} // verus!
