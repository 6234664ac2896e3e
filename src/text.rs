//! Character-level views of a text buffer: decoding to characters and
//! counting lines the way `str::lines` splits them.

use vstd::prelude::*;

verus! {

/// The characters of `s`, in order.
pub fn chars_of(s: &str) -> (r: Vec<char>)
    ensures
        r@ == s@,
{
    let mut v: Vec<char> = Vec::new();
    for c in it: s.chars()
        invariant
            v@ == it.seq().take(it.index() as int),
    {
        v.push(c);
    }
    v
}

/// Number of `'\n'` characters in `s`.
pub open spec fn newlines(s: Seq<char>) -> nat
    decreases s.len(),
{
    if s.len() == 0 {
        0
    } else {
        newlines(s.drop_last()) + if s.last() == '\n' { 1nat } else { 0nat }
    }
}

/// Number of lines of `s`: every `'\n'` ends one, and a non-empty tail
/// without a final `'\n'` is one more. An empty text has no lines.
pub open spec fn line_count(s: Seq<char>) -> nat {
    if s.len() == 0 {
        0
    } else if s.last() == '\n' {
        newlines(s)
    } else {
        newlines(s) + 1
    }
}

/// Index of the line that holds position `p` of `s`: the newlines before it.
pub open spec fn line_of(s: Seq<char>, p: int) -> nat {
    newlines(s.take(p))
}

proof fn lemma_newlines_bound(s: Seq<char>)
    ensures
        newlines(s) <= s.len(),
    decreases s.len(),
{
    if s.len() > 0 {
        lemma_newlines_bound(s.drop_last());
    }
}

/// Counts the `'\n'` characters among the first `n` of `s`.
pub fn count_newlines(s: &[char], n: usize) -> (r: usize)
    requires
        n <= s@.len(),
    ensures
        r == newlines(s@.take(n as int)),
{
    let mut r: usize = 0;
    let mut i: usize = 0;
    while i < n
        invariant
            i <= n <= s@.len(),
            r == newlines(s@.take(i as int)),
            r <= i,
        decreases n - i,
    {
        assert(s@.take(i + 1).drop_last() =~= s@.take(i as int));
        if s[i] == '\n' {
            r = r + 1;
        }
        i = i + 1;
    }
    r
}

/// Number of lines of `text`, as `str::lines` yields them.
pub fn count_lines(text: &str) -> (r: usize)
    ensures
        r == line_count(text@),
{
    let cs = chars_of(text);
    let n = cs.len();
    if n == 0 {
        return 0;
    }
    assert(cs@.take(n as int) =~= cs@);
    let nl = count_newlines(cs.as_slice(), n);
    if cs[n - 1] == '\n' {
        nl
    } else {
        proof {
            lemma_newlines_bound(cs@.drop_last());
        }
        nl + 1
    }
}

} // verus!

verus! {

/// Whether the characters `w` spell exactly `s`.
pub fn same_text(w: &[char], s: &str) -> (r: bool)
    ensures
        r == (w@ == s@),
{
    let n = s.unicode_len();
    if n != w.len() {
        return false;
    }
    let mut i: usize = 0;
    while i < n
        invariant
            n == s@.len(),
            n == w@.len(),
            i <= n,
            forall|j: int| 0 <= j < i ==> w@[j] == s@[j],
        decreases n - i,
    {
        if w[i] != s.get_char(i) {
            return false;
        }
        i += 1;
    }
    assert(w@ =~= s@);
    true
}

} // verus!

verus! {

/// Width that line numbers are right-aligned to.
pub const GUTTER_WIDTH: usize = 4;

/// The decimal digit for `d`, below ten.
pub open spec fn digit_char(d: int) -> char {
    if d == 0 {
        '0'
    } else if d == 1 {
        '1'
    } else if d == 2 {
        '2'
    } else if d == 3 {
        '3'
    } else if d == 4 {
        '4'
    } else if d == 5 {
        '5'
    } else if d == 6 {
        '6'
    } else if d == 7 {
        '7'
    } else if d == 8 {
        '8'
    } else {
        '9'
    }
}

/// Decimal notation of `n`, without leading zeros.
pub open spec fn decimal(n: nat) -> Seq<char>
    decreases n,
{
    if n < 10 {
        seq![digit_char(n as int)]
    } else {
        decimal(n / 10).push(digit_char((n % 10) as int))
    }
}

/// The gutter text in front of the line with 0-based index `index`: its
/// 1-based number right-aligned to `GUTTER_WIDTH` columns, then a space.
pub open spec fn gutter_text(index: nat) -> Seq<char> {
    let d = decimal(index + 1);
    let pad: int = if d.len() < GUTTER_WIDTH {
        GUTTER_WIDTH - d.len()
    } else {
        0
    };
    Seq::new(pad as nat, |_j: int| ' ') + d + seq![' ']
}

fn digit(d: usize) -> (c: char)
    requires
        d < 10,
    ensures
        c == digit_char(d as int),
{
    if d == 0 {
        '0'
    } else if d == 1 {
        '1'
    } else if d == 2 {
        '2'
    } else if d == 3 {
        '3'
    } else if d == 4 {
        '4'
    } else if d == 5 {
        '5'
    } else if d == 6 {
        '6'
    } else if d == 7 {
        '7'
    } else if d == 8 {
        '8'
    } else {
        '9'
    }
}

/// The gutter text for the line with 0-based index `index`.
pub fn line_number_label(index: usize) -> (r: Vec<char>)
    requires
        index < usize::MAX,
    ensures
        r@ == gutter_text(index as nat),
{
    let total: usize = index + 1;
    let mut n: usize = total;
    let mut acc: Vec<char> = Vec::new();
    while n >= 10
        invariant
            n > 0,
            decimal(total as nat) == decimal(n as nat) + acc@,
        decreases n,
    {
        let c = digit(n % 10);
        assert(decimal(n as nat) == decimal((n / 10) as nat).push(c));
        assert(decimal((n / 10) as nat).push(c) + acc@ =~= decimal((n / 10) as nat) + (seq![c]
            + acc@));
        let ghost before = acc@;
        acc.insert(0, c);
        assert(acc@ =~= seq![c] + before);
        n = n / 10;
    }
    acc.insert(0, digit(n));
    assert(decimal(total as nat) =~= acc@);
    let mut out: Vec<char> = Vec::new();
    let len = acc.len();
    let pad: usize = if len < GUTTER_WIDTH {
        GUTTER_WIDTH - len
    } else {
        0
    };
    let mut i: usize = 0;
    while i < pad
        invariant
            i <= pad,
            out@ == Seq::new(i as nat, |_j: int| ' '),
        decreases pad - i,
    {
        out.push(' ');
        assert(out@ =~= Seq::new((i + 1) as nat, |_j: int| ' '));
        i += 1;
    }
    let mut k: usize = 0;
    while k < len
        invariant
            len == acc@.len(),
            k <= len,
            out@ == Seq::new(pad as nat, |_j: int| ' ') + acc@.take(k as int),
        decreases len - k,
    {
        out.push(acc[k]);
        assert(out@ =~= Seq::new(pad as nat, |_j: int| ' ') + acc@.take(k + 1));
        k += 1;
    }
    out.push(' ');
    assert(acc@.take(len as int) =~= acc@);
    assert(out@ =~= gutter_text(index as nat));
    out
}

} // verus!

verus! {

/// Name for what `char::to_lowercase` yields for `c`: its lower-case
/// mapping, one or more characters.
pub uninterp spec fn lower_of(c: char) -> Seq<char>;

/// Relies on `char::to_lowercase`: the characters of the lower-case mapping
/// of `c`, which depend on `c` alone.
#[verifier::external_body]
fn lower_char(c: char) -> (r: Vec<char>)
    ensures
        r@ == lower_of(c),
{
    c.to_lowercase().collect()
}

/// The lower-case mapping of each character of `s`, one entry per
/// character, so that positions stay those of `s`.
pub open spec fn lowered(s: Seq<char>) -> Seq<Seq<char>> {
    s.map_values(|c: char| lower_of(c))
}

/// The character sequences held in `v`.
pub open spec fn views(v: Seq<Vec<char>>) -> Seq<Seq<char>> {
    v.map_values(|x: Vec<char>| x@)
}

/// The lower-case mapping of each character of `s`.
pub fn lower_chars(s: &[char]) -> (r: Vec<Vec<char>>)
    ensures
        views(r@) == lowered(s@),
        r@.len() == s@.len(),
{
    let mut r: Vec<Vec<char>> = Vec::new();
    let mut i: usize = 0;
    while i < s.len()
        invariant
            i <= s@.len(),
            views(r@) == lowered(s@.take(i as int)),
            r@.len() == i,
        decreases s@.len() - i,
    {
        let l = lower_char(s[i]);
        let ghost before = r@;
        r.push(l);
        assert forall|j: int| 0 <= j < r@.len() implies #[trigger] views(r@)[j] == lowered(
            s@.take(i + 1),
        )[j] by {
            if j < i {
                assert(r@[j] == before[j]);
                assert(views(before)[j] == lowered(s@.take(i as int))[j]);
            }
        }
        assert(views(r@) =~= lowered(s@.take(i + 1)));
        i += 1;
    }
    assert(s@.take(s@.len() as int) =~= s@);
    r
}

/// Whether `a` and `b` hold the same characters.
pub fn same_chars(a: &[char], b: &[char]) -> (r: bool)
    ensures
        r == (a@ == b@),
{
    if a.len() != b.len() {
        return false;
    }
    let mut i: usize = 0;
    while i < a.len()
        invariant
            a@.len() == b@.len(),
            i <= a@.len(),
            forall|j: int| 0 <= j < i ==> a@[j] == b@[j],
        decreases a@.len() - i,
    {
        if a[i] != b[i] {
            return false;
        }
        i += 1;
    }
    assert(a@ =~= b@);
    true
}

} // verus!
