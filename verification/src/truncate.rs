//! Fitting a status line into the terminal's width, by the display widths
//! that `unicode-width` gives.
use vstd::prelude::*;
use crate::text::{chars_of, string_of};

verus! {

/// The column count that `unicode-width`'s tables give a character at or
/// above U+00A0.
pub uninterp spec fn table_width(c: char) -> usize;

/// `UnicodeWidthChar::width`: control characters have no width, printable
/// ASCII is one column, anything else goes by the tables.
pub open spec fn char_width_spec(c: char) -> Option<usize> {
    if '\u{20}' > c {
        None
    } else if '\u{7f}' > c {
        Some(1)
    } else if '\u{a0}' > c {
        None
    } else {
        Some(table_width(c))
    }
}

/// Calls `UnicodeWidthChar::width`. Its source answers `None` below U+0020
/// and from U+007F to U+009F, `Some(1)` for the rest of ASCII, and otherwise
/// a table entry that is a `u8`; the table entry is named.
#[verifier::external_body]
fn char_width(c: char) -> (r: Option<usize>)
    ensures
        r == char_width_spec(c),
        '\u{a0}' <= c ==> r == Some(table_width(c)),
        r matches Some(w) ==> w <= 255,
{
    unicode_width::UnicodeWidthChar::width(c)
}

/// What `UnicodeWidthStr::width` gives a string: its display width in
/// columns, which the crate works out from the whole string (emoji sequences
/// and the like), not as a sum of character widths.
pub uninterp spec fn str_width(s: Seq<char>) -> usize;

/// Calls `UnicodeWidthStr::width`; its result is named.
#[verifier::external_body]
fn text_width(s: &str) -> (r: usize)
    ensures
        r == str_width(s@),
{
    unicode_width::UnicodeWidthStr::width(s)
}

/// The width a character counts for while a line is cut: none for a control
/// character.
pub open spec fn cut_width(c: char) -> int {
    match char_width_spec(c) {
        Some(w) => w as int,
        None => 0,
    }
}

/// The width of the first `k` characters of `s`.
pub open spec fn prefix_width(s: Seq<char>, k: int) -> int
    decreases k,
{
    if k <= 0 {
        0
    } else {
        prefix_width(s, k - 1) + cut_width(s[k - 1])
    }
}

/// `k` characters of `s` are kept when a line is cut to `cols` columns: each
/// of them ends below `cols`, and the next one (if any) does not.
pub open spec fn is_cut(s: Seq<char>, cols: int, k: int) -> bool {
    &&& 0 <= k <= s.len()
    &&& forall|j: int| 0 <= j < k ==> #[trigger] prefix_width(s, j + 1) < cols
    &&& (k == s.len() || prefix_width(s, k + 1) >= cols)
}

pub open spec fn cut(s: Seq<char>, cols: int) -> int {
    choose|k: int| is_cut(s, cols, k)
}

/// A line fitted to `cols` columns: unchanged when its width is below
/// `cols`; otherwise the characters that end below `cols`, followed by `…`
/// when any were left out.
pub open spec fn truncate_spec(s: Seq<char>, cols: int) -> Seq<char> {
    if str_width(s) < cols {
        s
    } else {
        s.take(cut(s, cols)) + if cut(s, cols) < s.len() {
            seq!['…']
        } else {
            seq![]
        }
    }
}

proof fn lemma_cut(s: Seq<char>, cols: int, k: int)
    requires
        is_cut(s, cols, k),
    ensures
        cut(s, cols) == k,
{
    let m = cut(s, cols);
    assert(is_cut(s, cols, m));
    if m < k {
        assert(prefix_width(s, m + 1) < cols);
    } else if k < m {
        assert(prefix_width(s, k + 1) < cols);
    }
}

/// Cuts `x` to fit in `cols` terminal columns, marking a cut with `…`.
pub fn truncate_to(x: &str, cols: u16) -> (r: String)
    ensures
        r@ == truncate_spec(x@, cols as int),
{
    if text_width(x) < cols as usize {
        return string_of(&chars_of(x));
    }
    let s = chars_of(x);
    let mut len: usize = 0;
    let mut i: usize = 0;
    while i < s.len()
        invariant
            i <= s.len(),
            len == prefix_width(s@, i as int),
            forall|j: int| 0 <= j < i ==> #[trigger] prefix_width(s@, j + 1) < cols,
            len <= cols,
        ensures
            i <= s.len(),
            forall|j: int| 0 <= j < i ==> #[trigger] prefix_width(s@, j + 1) < cols,
            i == s.len() || prefix_width(s@, i + 1) >= cols,
        decreases s.len() - i,
    {
        let w = match char_width(s[i]) {
            Some(w) => w,
            None => 0,
        };
        if w >= cols as usize - len {
            break;
        }
        len = len + w;
        i += 1;
    }
    proof {
        assert(is_cut(s@, cols as int, i as int));
        lemma_cut(s@, cols as int, i as int);
    }
    let mut kept = crate::text::copy_range(&s, 0, i);
    if i < s.len() {
        kept.push('…');
    }
    proof {
        assert(s@.take(i as int) =~= s@.subrange(0, i as int));
        if i >= s.len() {
            assert(kept@ =~= s@.take(i as int) + Seq::<char>::empty());
        }
    }
    string_of(&kept)
}

/// A cut line shows at most `cols` columns when the `…` counts as one column:
/// the characters kept end below `cols`.
pub proof fn truncate_fits(s: Seq<char>, cols: int)
    requires
        cols > 0,
    ensures
        exists|k: int| is_cut(s, cols, k),
        prefix_width(s, cut(s, cols)) < cols,
{
    let k = cut_exists(s, cols, 0);
    lemma_cut(s, cols, k);
    if k > 0 {
        assert(prefix_width(s, (k - 1) + 1) < cols);
    }
}

/// Cutting always finds a place: scanning from `i` on, it stops at the first
/// character that reaches `cols`, or at the end.
proof fn cut_exists(s: Seq<char>, cols: int, i: int) -> (k: int)
    requires
        0 <= i <= s.len(),
        forall|j: int| 0 <= j < i ==> #[trigger] prefix_width(s, j + 1) < cols,
    ensures
        is_cut(s, cols, k),
    decreases s.len() - i,
{
    if i == s.len() || prefix_width(s, i + 1) >= cols {
        i
    } else {
        cut_exists(s, cols, i + 1)
    }
}

} // verus!
