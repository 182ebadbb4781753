//! Character-level text handling: the pieces of `str` behaviour that the
//! parsers of this crate rely on, each stated over `Seq<char>` and proved.
use vstd::prelude::*;

verus! {

// ---------------------------------------------------------------------------
// Character classes
// ---------------------------------------------------------------------------

/// The Unicode `White_Space` property, which `char::is_whitespace`,
/// `str::trim` and `str::split_whitespace` use.
pub open spec fn is_white(c: char) -> bool {
    ||| ('\u{9}' <= c && c <= '\u{d}')
    ||| c == ' '
    ||| c == '\u{85}'
    ||| c == '\u{a0}'
    ||| c == '\u{1680}'
    ||| ('\u{2000}' <= c && c <= '\u{200a}')
    ||| c == '\u{2028}'
    ||| c == '\u{2029}'
    ||| c == '\u{202f}'
    ||| c == '\u{205f}'
    ||| c == '\u{3000}'
}

/// ASCII whitespace as `u8::is_ascii_whitespace` defines it (no vertical tab).
pub open spec fn is_ascii_white(c: char) -> bool {
    c == ' ' || c == '\t' || c == '\n' || c == '\u{c}' || c == '\r'
}

pub open spec fn is_digit(c: char) -> bool {
    '0' <= c && c <= '9'
}

/// The value of a decimal digit; zero for any other character.
pub open spec fn digit_value(c: char) -> nat {
    if is_digit(c) {
        (c as int - '0' as int) as nat
    } else {
        0
    }
}

pub fn white(c: char) -> (b: bool)
    ensures
        b == is_white(c),
{
    ('\u{9}' <= c && c <= '\u{d}') || c == ' ' || c == '\u{85}' || c == '\u{a0}' || c == '\u{1680}'
        || ('\u{2000}' <= c && c <= '\u{200a}') || c == '\u{2028}' || c == '\u{2029}' || c
        == '\u{202f}' || c == '\u{205f}' || c == '\u{3000}'
}

pub fn ascii_white(c: char) -> (b: bool)
    ensures
        b == is_ascii_white(c),
{
    c == ' ' || c == '\t' || c == '\n' || c == '\u{c}' || c == '\r'
}

pub fn digit(c: char) -> (b: bool)
    ensures
        b == is_digit(c),
{
    '0' <= c && c <= '9'
}

// ---------------------------------------------------------------------------
// Conversions between `str` and character vectors
// ---------------------------------------------------------------------------

/// The characters of a string slice.
pub fn chars_of(s: &str) -> (v: Vec<char>)
    ensures
        v@ == s@,
{
    let mut v: Vec<char> = Vec::new();
    for c in it: s.chars()
        invariant
            v@ == it.seq().take(it.index() as int),
    {
        v.push(c);
    }
    v
}

/// `String::from_iter` over characters: the string made of `v`, in order.
#[verifier::external_body]
pub(crate) fn string_of(v: &Vec<char>) -> (s: String)
    ensures
        s@ == v@,
{
    v.iter().collect()
}

/// The characters `s[a..b]` as a new vector.
pub fn copy_range(s: &Vec<char>, a: usize, b: usize) -> (r: Vec<char>)
    requires
        a <= b <= s.len(),
    ensures
        r@ == s@.subrange(a as int, b as int),
{
    let mut r: Vec<char> = Vec::new();
    let mut i = a;
    while i < b
        invariant
            a <= i <= b <= s.len(),
            r@ == s@.subrange(a as int, i as int),
        decreases b - i,
    {
        r.push(s[i]);
        i += 1;
    }
    r
}

// ---------------------------------------------------------------------------
// Searching
// ---------------------------------------------------------------------------

/// `i` is the first position of `c` in `s`.
pub open spec fn is_first(s: Seq<char>, c: char, i: int) -> bool {
    &&& 0 <= i < s.len()
    &&& s[i] == c
    &&& forall|j: int| 0 <= j < i ==> s[j] != c
}

/// The position of the first `c` in `s`, if any.
pub open spec fn first_index(s: Seq<char>, c: char) -> Option<int> {
    if exists|i: int| is_first(s, c, i) {
        Some(choose|i: int| is_first(s, c, i))
    } else {
        None
    }
}

pub proof fn lemma_first_index_some(s: Seq<char>, c: char, i: int)
    requires
        is_first(s, c, i),
    ensures
        first_index(s, c) == Some(i),
{
    let k = choose|k: int| is_first(s, c, k);
    assert(k == i) by {
        if k < i {
            assert(s[k] != c);
        } else if i < k {
            assert(s[i] != c);
        }
    }
}

pub proof fn lemma_first_index_none(s: Seq<char>, c: char)
    requires
        forall|j: int| 0 <= j < s.len() ==> s[j] != c,
    ensures
        first_index(s, c) == None::<int>,
{
}

/// First position at or after `from` that holds `c`.
pub fn find_char_from(s: &Vec<char>, from: usize, c: char) -> (r: Option<usize>)
    requires
        from <= s.len(),
    ensures
        r matches Some(j) ==> from <= j < s.len() && s@[j as int] == c && forall|k: int|
            from <= k < j ==> s@[k] != c,
        r is None ==> forall|k: int| from <= k < s.len() ==> s@[k] != c,
{
    let mut i = from;
    while i < s.len()
        invariant
            from <= i <= s.len(),
            forall|k: int| from <= k < i ==> s@[k] != c,
        decreases s.len() - i,
    {
        if s[i] == c {
            return Some(i);
        }
        i += 1;
    }
    None
}

/// The position of the first `c` in `s`, as `first_index` states it.
pub fn find_char(s: &Vec<char>, c: char) -> (r: Option<usize>)
    ensures
        r matches Some(j) ==> j < s.len() && s@[j as int] == c,
        r matches Some(j) ==> first_index(s@, c) == Some(j as int),
        r is None ==> first_index(s@, c) is None,
{
    let r = find_char_from(s, 0, c);
    proof {
        match r {
            Some(j) => lemma_first_index_some(s@, c, j as int),
            None => lemma_first_index_none(s@, c),
        }
    }
    r
}

pub open spec fn starts_with(s: Seq<char>, p: Seq<char>) -> bool {
    p.len() <= s.len() && s.take(p.len() as int) == p
}

pub open spec fn ends_with(s: Seq<char>, p: Seq<char>) -> bool {
    p.len() <= s.len() && s.skip(s.len() - p.len()) == p
}

/// `p` occurs in `s` at position `i`.
pub open spec fn occurs_at(s: Seq<char>, p: Seq<char>, i: int) -> bool {
    0 <= i && i + p.len() <= s.len() && s.subrange(i, i + p.len()) == p
}

pub open spec fn contains(s: Seq<char>, p: Seq<char>) -> bool {
    exists|i: int| occurs_at(s, p, i)
}

/// Whether `p` occurs in `s` at position `i`.
pub fn matches_at(s: &Vec<char>, p: &Vec<char>, i: usize) -> (b: bool)
    requires
        i <= s.len(),
    ensures
        b == occurs_at(s@, p@, i as int),
{
    if p.len() > s.len() - i {
        return false;
    }
    let mut k: usize = 0;
    while k < p.len()
        invariant
            i + p.len() <= s.len(),
            k <= p.len(),
            forall|m: int| 0 <= m < k ==> s@[i + m] == p@[m],
        decreases p.len() - k,
    {
        if s[i + k] != p[k] {
            proof {
                assert(s@.subrange(i as int, i + p.len())[k as int] != p@[k as int]);
            }
            return false;
        }
        k += 1;
    }
    proof {
        assert(s@.subrange(i as int, i + p.len()) =~= p@);
    }
    true
}

pub fn has_prefix(s: &Vec<char>, p: &Vec<char>) -> (b: bool)
    ensures
        b == starts_with(s@, p@),
{
    let b = matches_at(s, p, 0);
    proof {
        if p@.len() <= s@.len() {
            assert(s@.subrange(0, p@.len() as int) == s@.take(p@.len() as int));
        }
    }
    b
}

pub fn has_suffix(s: &Vec<char>, p: &Vec<char>) -> (b: bool)
    ensures
        b == ends_with(s@, p@),
{
    if p.len() > s.len() {
        return false;
    }
    let b = matches_at(s, p, s.len() - p.len());
    proof {
        assert(s@.subrange(s@.len() - p@.len(), s@.len() as int) == s@.skip(
            s@.len() - p@.len(),
        ));
    }
    b
}

/// Whether `p` occurs anywhere in `s` (`str::contains`).
pub fn has_substring(s: &Vec<char>, p: &Vec<char>) -> (b: bool)
    ensures
        b == contains(s@, p@),
{
    let mut i: usize = 0;
    while i < s.len()
        invariant
            i <= s.len(),
            forall|k: int| 0 <= k < i ==> !occurs_at(s@, p@, k),
        decreases s.len() - i,
    {
        if matches_at(s, p, i) {
            return true;
        }
        i += 1;
    }
    if matches_at(s, p, i) {
        return true;
    }
    proof {
        assert forall|k: int| !occurs_at(s@, p@, k) by {
            if 0 <= k <= i {
            }
        }
    }
    false
}

// ---------------------------------------------------------------------------
// Trimming
// ---------------------------------------------------------------------------

/// Whitespace for `str::trim` (Unicode) or `str::trim_ascii` (ASCII only).
pub open spec fn is_space(ascii: bool, c: char) -> bool {
    if ascii {
        is_ascii_white(c)
    } else {
        is_white(c)
    }
}

pub open spec fn trim_start_by(ascii: bool, s: Seq<char>) -> Seq<char>
    decreases s.len(),
{
    if s.len() > 0 && is_space(ascii, s[0]) {
        trim_start_by(ascii, s.drop_first())
    } else {
        s
    }
}

pub open spec fn trim_end_by(ascii: bool, s: Seq<char>) -> Seq<char>
    decreases s.len(),
{
    if s.len() > 0 && is_space(ascii, s.last()) {
        trim_end_by(ascii, s.drop_last())
    } else {
        s
    }
}

/// `str::trim`: leading and trailing Unicode whitespace removed.
pub open spec fn trim_spec(s: Seq<char>) -> Seq<char> {
    trim_end_by(false, trim_start_by(false, s))
}

/// `str::trim_ascii`: leading and trailing ASCII whitespace removed.
pub open spec fn trim_ascii_spec(s: Seq<char>) -> Seq<char> {
    trim_end_by(true, trim_start_by(true, s))
}

proof fn lemma_trim_start(ascii: bool, s: Seq<char>, a: int)
    requires
        0 <= a <= s.len(),
        forall|j: int| 0 <= j < a ==> is_space(ascii, s[j]),
        a == s.len() || !is_space(ascii, s[a]),
    ensures
        trim_start_by(ascii, s) == s.skip(a),
    decreases a,
{
    if a == 0 {
        assert(s.skip(0) =~= s);
    } else {
        assert(s.drop_first().skip(a - 1) =~= s.skip(a));
        lemma_trim_start(ascii, s.drop_first(), a - 1);
    }
}

proof fn lemma_trim_end(ascii: bool, s: Seq<char>, b: int)
    requires
        0 <= b <= s.len(),
        forall|j: int| b <= j < s.len() ==> is_space(ascii, s[j]),
        b == 0 || !is_space(ascii, s[b - 1]),
    ensures
        trim_end_by(ascii, s) == s.take(b),
    decreases s.len() - b,
{
    if b == s.len() {
        assert(s.take(b) =~= s);
    } else {
        assert(s.drop_last().take(b) =~= s.take(b));
        lemma_trim_end(ascii, s.drop_last(), b);
    }
}

fn space(ascii: bool, c: char) -> (b: bool)
    ensures
        b == is_space(ascii, c),
{
    if ascii {
        ascii_white(c)
    } else {
        white(c)
    }
}

fn trim_by(ascii: bool, s: &Vec<char>) -> (r: Vec<char>)
    ensures
        r@ == trim_end_by(ascii, trim_start_by(ascii, s@)),
{
    let mut a: usize = 0;
    while a < s.len() && space(ascii, s[a])
        invariant
            a <= s.len(),
            forall|j: int| 0 <= j < a ==> is_space(ascii, s@[j]),
        decreases s.len() - a,
    {
        a += 1;
    }
    let mut b: usize = s.len();
    while b > a && space(ascii, s[b - 1])
        invariant
            a <= b <= s.len(),
            forall|j: int| b <= j < s.len() ==> is_space(ascii, s@[j]),
        decreases b,
    {
        b -= 1;
    }
    proof {
        lemma_trim_start(ascii, s@, a as int);
        let t = s@.skip(a as int);
        if b > a {
            lemma_trim_end(ascii, t, b - a);
        } else {
            lemma_trim_end(ascii, t, 0);
        }
        assert(t.take(b - a) =~= s@.subrange(a as int, b as int));
    }
    copy_range(s, a, b)
}

/// `str::trim` on characters.
pub fn trim(s: &Vec<char>) -> (r: Vec<char>)
    ensures
        r@ == trim_spec(s@),
{
    trim_by(false, s)
}

/// `str::trim_ascii` on characters.
pub fn trim_ascii(s: &Vec<char>) -> (r: Vec<char>)
    ensures
        r@ == trim_ascii_spec(s@),
{
    trim_by(true, s)
}

/// `str::trim` on a string slice.
pub fn trim_str(s: &str) -> (r: String)
    ensures
        r@ == trim_spec(s@),
{
    string_of(&trim(&chars_of(s)))
}

/// Trimming twice removes nothing more than trimming once.
pub proof fn trim_idempotent(s: Seq<char>)
    ensures
        trim_spec(trim_spec(s)) == trim_spec(s),
{
    let t = trim_spec(s);
    lemma_trim_shape(false, s);
    if t.len() > 0 {
        lemma_trim_start(false, t, 0);
        lemma_trim_end(false, t, t.len() as int);
        assert(t.skip(0) =~= t);
        assert(t.take(t.len() as int) =~= t);
    } else {
        assert(trim_start_by(false, t) == t);
    }
}

/// A trimmed sequence is empty or starts and ends with non-whitespace.
pub proof fn lemma_trim_shape(ascii: bool, s: Seq<char>)
    ensures
        trim_end_by(ascii, trim_start_by(ascii, s)).len() > 0 ==> {
            let t = trim_end_by(ascii, trim_start_by(ascii, s));
            !is_space(ascii, t[0]) && !is_space(ascii, t.last())
        },
{
    lemma_trim_start_shape(ascii, s);
    lemma_trim_end_shape(ascii, trim_start_by(ascii, s));
}

proof fn lemma_trim_start_shape(ascii: bool, s: Seq<char>)
    ensures
        trim_start_by(ascii, s).len() > 0 ==> !is_space(ascii, trim_start_by(ascii, s)[0]),
    decreases s.len(),
{
    if s.len() > 0 && is_space(ascii, s[0]) {
        lemma_trim_start_shape(ascii, s.drop_first());
    }
}

proof fn lemma_trim_end_shape(ascii: bool, s: Seq<char>)
    ensures
        trim_end_by(ascii, s).len() > 0 ==> !is_space(ascii, trim_end_by(ascii, s).last()),
        s.len() > 0 && !is_space(ascii, s[0]) ==> trim_end_by(ascii, s).len() > 0 && trim_end_by(
            ascii,
            s,
        )[0] == s[0],
    decreases s.len(),
{
    if s.len() > 0 && is_space(ascii, s.last()) {
        lemma_trim_end_shape(ascii, s.drop_last());
    }
}

// ---------------------------------------------------------------------------
// Splitting
// ---------------------------------------------------------------------------

/// `str::split_once` with a character separator.
pub open spec fn split_once_spec(s: Seq<char>, c: char) -> Option<(Seq<char>, Seq<char>)> {
    match first_index(s, c) {
        Some(i) => Some((s.take(i), s.skip(i + 1))),
        None => None,
    }
}

pub fn split_once(s: &Vec<char>, c: char) -> (r: Option<(Vec<char>, Vec<char>)>)
    ensures
        r matches Some(p) ==> split_once_spec(s@, c) == Some((p.0@, p.1@)),
        r is None ==> split_once_spec(s@, c) is None,
{
    match find_char(s, c) {
        Some(i) => {
            let a = copy_range(s, 0, i);
            let b = copy_range(s, i + 1, s.len());
            proof {
                assert(a@ =~= s@.take(i as int));
                assert(b@ =~= s@.skip(i + 1));
            }
            Some((a, b))
        },
        None => None,
    }
}

/// The views of a vector of character vectors.
pub open spec fn views(v: Seq<Vec<char>>) -> Seq<Seq<char>> {
    v.map_values(|l: Vec<char>| l@)
}

proof fn lemma_views_push(v: Seq<Vec<char>>, x: Vec<char>)
    ensures
        views(v.push(x)) == views(v).push(x@),
{
    assert(views(v.push(x)) =~= views(v).push(x@));
}

/// One line as `str::lines` yields it: a `\r` before the `\n` is dropped.
pub open spec fn strip_cr(l: Seq<char>) -> Seq<char> {
    if l.len() > 0 && l.last() == '\r' {
        l.drop_last()
    } else {
        l
    }
}

/// `str::lines`: the text split at each `\n` (a preceding `\r` removed), with
/// no empty line after a final `\n`.
pub open spec fn lines_spec(s: Seq<char>) -> Seq<Seq<char>>
    decreases s.len(),
{
    if s.len() == 0 {
        seq![]
    } else {
        match first_index(s, '\n') {
            Some(i) => if 0 <= i < s.len() {
                seq![strip_cr(s.take(i))] + lines_spec(s.skip(i + 1))
            } else {
                seq![]
            },
            None => seq![s],
        }
    }
}

fn strip_cr_exec(l: Vec<char>) -> (r: Vec<char>)
    ensures
        r@ == strip_cr(l@),
{
    let mut l = l;
    if l.len() > 0 && l[l.len() - 1] == '\r' {
        l.pop();
    }
    l
}

/// The lines of `s`, as `str::lines` yields them.
pub fn lines(s: &Vec<char>) -> (r: Vec<Vec<char>>)
    ensures
        views(r@) == lines_spec(s@),
{
    let mut r: Vec<Vec<char>> = Vec::new();
    let mut i: usize = 0;
    proof {
        assert(s@.skip(0) =~= s@);
        assert(views(r@) + lines_spec(s@.skip(0)) =~= lines_spec(s@));
    }
    while i < s.len()
        invariant
            i <= s.len(),
            views(r@) + lines_spec(s@.skip(i as int)) == lines_spec(s@),
        decreases s.len() - i,
    {
        let ghost t = s@.skip(i as int);
        let ghost old_r = r@;
        match find_char_from(s, i, '\n') {
            Some(j) => {
                let line = strip_cr_exec(copy_range(s, i, j));
                proof {
                    assert(is_first(t, '\n', j - i));
                    lemma_first_index_some(t, '\n', j - i);
                    assert(t.take(j - i) =~= s@.subrange(i as int, j as int));
                    assert(t.skip(j - i + 1) =~= s@.skip(j + 1));
                }
                r.push(line);
                i = j + 1;
                proof {
                    lemma_views_push(old_r, line);
                    assert(views(r@) + lines_spec(s@.skip(i as int)) =~= views(old_r) + lines_spec(
                        t,
                    ));
                }
            },
            None => {
                let line = copy_range(s, i, s.len());
                proof {
                    assert forall|k: int| 0 <= k < t.len() implies t[k] != '\n' by {
                        assert(t[k] == s@[i + k]);
                    }
                    lemma_first_index_none(t, '\n');
                    assert(line@ =~= t);
                }
                r.push(line);
                i = s.len();
                proof {
                    lemma_views_push(old_r, line);
                    assert(s@.skip(i as int) =~= Seq::<char>::empty());
                    assert(views(r@) + lines_spec(s@.skip(i as int)) =~= views(old_r) + lines_spec(
                        t,
                    ));
                }
            },
        }
    }
    proof {
        assert(s@.skip(i as int) =~= Seq::<char>::empty());
        assert(views(r@) + lines_spec(s@.skip(i as int)) =~= views(r@));
    }
    r
}

/// `k` ends the first whitespace-free run of `s`, which starts at 0.
pub open spec fn is_word_end(s: Seq<char>, k: int) -> bool {
    &&& 0 < k <= s.len()
    &&& forall|j: int| 0 <= j < k ==> !is_white(s[j])
    &&& (k == s.len() || is_white(s[k]))
}

pub open spec fn word_end(s: Seq<char>) -> int {
    choose|k: int| is_word_end(s, k)
}

/// `str::split_whitespace`: the maximal runs of non-whitespace characters.
pub open spec fn words_spec(s: Seq<char>) -> Seq<Seq<char>>
    decreases s.len(),
{
    if s.len() == 0 {
        seq![]
    } else if is_white(s[0]) {
        words_spec(s.drop_first())
    } else if is_word_end(s, word_end(s)) {
        seq![s.take(word_end(s))] + words_spec(s.skip(word_end(s)))
    } else {
        seq![]
    }
}

proof fn lemma_word_end(s: Seq<char>, k: int)
    requires
        is_word_end(s, k),
    ensures
        word_end(s) == k,
{
    let m = word_end(s);
    assert(is_word_end(s, m));
    if m < k {
        assert(!is_white(s[m]));
    } else if k < m {
        assert(!is_white(s[k]));
    }
}

/// The whitespace-separated words of `s`, as `str::split_whitespace` yields them.
pub fn words(s: &Vec<char>) -> (r: Vec<Vec<char>>)
    ensures
        views(r@) == words_spec(s@),
{
    let mut r: Vec<Vec<char>> = Vec::new();
    let mut i: usize = 0;
    proof {
        assert(s@.skip(0) =~= s@);
        assert(views(r@) + words_spec(s@.skip(0)) =~= words_spec(s@));
    }
    while i < s.len()
        invariant
            i <= s.len(),
            views(r@) + words_spec(s@.skip(i as int)) == words_spec(s@),
        decreases s.len() - i,
    {
        let ghost t = s@.skip(i as int);
        let ghost old_r = r@;
        if white(s[i]) {
            i += 1;
            proof {
                assert(t.drop_first() =~= s@.skip(i as int));
            }
        } else {
            let mut j = i + 1;
            while j < s.len() && !white(s[j])
                invariant
                    i < j <= s.len(),
                    forall|m: int| i <= m < j ==> !is_white(s@[m]),
                decreases s.len() - j,
            {
                j += 1;
            }
            let w = copy_range(s, i, j);
            proof {
                assert(is_word_end(t, j - i));
                lemma_word_end(t, j - i);
                assert(t.take(j - i) =~= w@);
                assert(t.skip(j - i) =~= s@.skip(j as int));
            }
            r.push(w);
            i = j;
            proof {
                lemma_views_push(old_r, w);
                assert(views(r@) + words_spec(s@.skip(i as int)) =~= views(old_r) + words_spec(t));
            }
        }
    }
    proof {
        assert(s@.skip(i as int) =~= Seq::<char>::empty());
        assert(views(r@) + words_spec(s@.skip(i as int)) =~= views(r@));
    }
    r
}

// ---------------------------------------------------------------------------
// Replacing
// ---------------------------------------------------------------------------

/// For a non-empty pattern `p`, what `str::replace` gives: every
/// non-overlapping occurrence of `p`, scanning from the left, replaced by `r`.
/// (An empty pattern leaves the text unchanged here, unlike `str::replace`;
/// `replace_all` only takes non-empty patterns.)
pub open spec fn replace_spec(s: Seq<char>, p: Seq<char>, r: Seq<char>) -> Seq<char>
    decreases s.len(),
{
    if p.len() == 0 || s.len() < p.len() {
        s
    } else if s.take(p.len() as int) == p {
        r + replace_spec(s.skip(p.len() as int), p, r)
    } else {
        seq![s[0]] + replace_spec(s.drop_first(), p, r)
    }
}

/// `s` with every occurrence of `p` replaced by `r` (`str::replace`).
pub fn replace_all(s: &Vec<char>, p: &Vec<char>, r: &Vec<char>) -> (out: Vec<char>)
    requires
        p.len() > 0,
    ensures
        out@ == replace_spec(s@, p@, r@),
{
    let mut out: Vec<char> = Vec::new();
    let mut i: usize = 0;
    proof {
        assert(s@.skip(0) =~= s@);
    }
    while i < s.len()
        invariant
            i <= s.len(),
            p.len() > 0,
            out@ + replace_spec(s@.skip(i as int), p@, r@) == replace_spec(s@, p@, r@),
        decreases s.len() - i,
    {
        let ghost t = s@.skip(i as int);
        let ghost old_out = out@;
        if matches_at(s, p, i) {
            let mut k: usize = 0;
            while k < r.len()
                invariant
                    k <= r.len(),
                    out@ == old_out + r@.take(k as int),
                decreases r.len() - k,
            {
                out.push(r[k]);
                k += 1;
                proof {
                    assert(r@.take(k as int) =~= r@.take(k - 1 as int).push(r@[k - 1]));
                }
            }
            proof {
                assert(r@.take(r.len() as int) =~= r@);
                assert(t.take(p.len() as int) =~= s@.subrange(i as int, i + p.len()));
                assert(t.skip(p.len() as int) =~= s@.skip(i + p.len()));
            }
            i = i + p.len();
            proof {
                assert(out@ + replace_spec(s@.skip(i as int), p@, r@) =~= old_out + replace_spec(
                    t,
                    p@,
                    r@,
                ));
            }
        } else {
            out.push(s[i]);
            proof {
                assert(t.drop_first() =~= s@.skip(i + 1));
                if t.len() >= p.len() {
                    assert(t.take(p.len() as int) =~= s@.subrange(i as int, i + p.len()));
                } else {
                    assert(t.drop_first().len() < p.len());
                    assert(t =~= seq![s@[i as int]] + t.drop_first());
                }
            }
            i = i + 1;
            proof {
                assert(out@ + replace_spec(s@.skip(i as int), p@, r@) =~= old_out + replace_spec(
                    t,
                    p@,
                    r@,
                ));
            }
        }
    }
    proof {
        assert(s@.skip(i as int) =~= Seq::<char>::empty());
        assert(out@ + replace_spec(s@.skip(i as int), p@, r@) =~= out@);
    }
    out
}

/// A sequence in which the pattern does not occur is left unchanged.
pub proof fn replace_without_match(s: Seq<char>, p: Seq<char>, r: Seq<char>)
    requires
        p.len() > 0,
        !contains(s, p),
    ensures
        replace_spec(s, p, r) == s,
    decreases s.len(),
{
    if s.len() >= p.len() {
        assert(!occurs_at(s, p, 0));
        assert(s.subrange(0, p.len() as int) == s.take(p.len() as int));
        assert forall|i: int| !occurs_at(s.drop_first(), p, i) by {
            if occurs_at(s.drop_first(), p, i) {
                assert(s.drop_first().subrange(i, i + p.len()) =~= s.subrange(i + 1, i + 1 + p.len()));
                assert(occurs_at(s, p, i + 1));
            }
        }
        replace_without_match(s.drop_first(), p, r);
        assert(seq![s[0]] + s.drop_first() =~= s);
    }
}

// ---------------------------------------------------------------------------
// Numbers
// ---------------------------------------------------------------------------

pub open spec fn all_digits(s: Seq<char>) -> bool {
    forall|i: int| 0 <= i < s.len() ==> is_digit(s[i])
}

/// The number that a string of decimal digits denotes, read left to right
/// (`acc * 10 + digit`).
pub open spec fn digits_value(s: Seq<char>) -> nat
    decreases s.len(),
{
    if s.len() == 0 {
        0
    } else {
        digits_value(s.drop_last()) * 10 + digit_value(s.last())
    }
}

/// The digits that `u64::from_str` reads: one leading `+` is allowed.
pub open spec fn unsigned_digits(s: Seq<char>) -> Seq<char> {
    if s.len() > 0 && s[0] == '+' {
        s.drop_first()
    } else {
        s
    }
}

/// `u64::from_str`: an optional `+`, then one or more decimal digits whose
/// value fits in 64 bits.
pub open spec fn parse_u64_spec(s: Seq<char>) -> Option<u64> {
    let d = unsigned_digits(s);
    if d.len() > 0 && all_digits(d) && digits_value(d) <= u64::MAX {
        Some(digits_value(d) as u64)
    } else {
        None
    }
}

/// `u32::from_str`, the same grammar with a 32-bit bound.
pub open spec fn parse_u32_spec(s: Seq<char>) -> Option<u32> {
    let d = unsigned_digits(s);
    if d.len() > 0 && all_digits(d) && digits_value(d) <= u32::MAX {
        Some(digits_value(d) as u32)
    } else {
        None
    }
}

proof fn lemma_digits_step(s: Seq<char>, i: int)
    requires
        0 <= i < s.len(),
    ensures
        digits_value(s.take(i + 1)) == digits_value(s.take(i)) * 10 + digit_value(s[i]),
{
    assert(s.take(i + 1).drop_last() =~= s.take(i));
}

/// A longer digit string never has a smaller value than its prefix.
proof fn lemma_digits_monotone(s: Seq<char>, i: int)
    requires
        0 <= i <= s.len(),
    ensures
        digits_value(s.take(i)) <= digits_value(s),
    decreases s.len() - i,
{
    if i < s.len() {
        lemma_digits_step(s, i);
        lemma_digits_monotone(s, i + 1);
    } else {
        assert(s.take(i) =~= s);
    }
}

/// The value of the digits `s[from..]`, or `None` when it exceeds `u64::MAX`.
fn digits_number(s: &Vec<char>, from: usize) -> (r: Option<u64>)
    requires
        from <= s.len(),
        all_digits(s@.skip(from as int)),
    ensures
        r matches Some(v) ==> v == digits_value(s@.skip(from as int)),
        r is None ==> digits_value(s@.skip(from as int)) > u64::MAX,
{
    let ghost d = s@.skip(from as int);
    let mut acc: u64 = 0;
    let mut i = from;
    proof {
        assert(d.take(0) =~= Seq::<char>::empty());
    }
    while i < s.len()
        invariant
            from <= i <= s.len(),
            d == s@.skip(from as int),
            all_digits(d),
            acc == digits_value(d.take(i - from)),
        decreases s.len() - i,
    {
        let c = s[i];
        proof {
            assert(d[i - from] == c);
            lemma_digits_step(d, i - from);
        }
        let v = (c as u32 - '0' as u32) as u64;
        match acc.checked_mul(10) {
            Some(m) => match m.checked_add(v) {
                Some(n) => {
                    acc = n;
                },
                None => {
                    proof {
                        lemma_digits_monotone(d, i - from + 1);
                    }
                    return None;
                },
            },
            None => {
                proof {
                    lemma_digits_monotone(d, i - from + 1);
                }
                return None;
            },
        }
        i += 1;
    }
    proof {
        assert(d.take(i - from) =~= d);
    }
    Some(acc)
}

/// `u64::from_str` on characters.
pub fn parse_u64(s: &Vec<char>) -> (r: Option<u64>)
    ensures
        r == parse_u64_spec(s@),
{
    let from: usize = if s.len() > 0 && s[0] == '+' {
        1
    } else {
        0
    };
    proof {
        assert(unsigned_digits(s@) =~= s@.skip(from as int));
    }
    if from == s.len() {
        return None;
    }
    let mut i = from;
    while i < s.len()
        invariant
            from <= i <= s.len(),
            unsigned_digits(s@) == s@.skip(from as int),
            forall|k: int| from <= k < i ==> is_digit(s@[k]),
        decreases s.len() - i,
    {
        if !digit(s[i]) {
            proof {
                assert(!is_digit(s@.skip(from as int)[i - from]));
            }
            return None;
        }
        i += 1;
    }
    proof {
        assert(all_digits(s@.skip(from as int)));
    }
    digits_number(s, from)
}

/// `u32::from_str` on characters.
pub fn parse_u32(s: &Vec<char>) -> (r: Option<u32>)
    ensures
        r == parse_u32_spec(s@),
{
    match parse_u64(s) {
        Some(v) => if v <= u32::MAX as u64 {
            Some(v as u32)
        } else {
            None
        },
        None => {
            proof {
                let d = unsigned_digits(s@);
                if d.len() > 0 && all_digits(d) && digits_value(d) <= u32::MAX {
                    assert(digits_value(d) <= u64::MAX);
                }
            }
            None
        },
    }
}

/// `u64::from_str` on a string slice.
pub fn parse_u64_str(s: &str) -> (r: Option<u64>)
    ensures
        r == parse_u64_spec(s@),
{
    parse_u64(&chars_of(s))
}

pub open spec fn digit_char(d: nat) -> char {
    (('0' as int) + d) as char
}

/// The decimal digits of `n`, most significant first, with no leading zeros
/// (what `Display` writes for an unsigned integer).
pub open spec fn decimal_spec(n: nat) -> Seq<char>
    decreases n,
{
    if n < 10 {
        seq![digit_char(n)]
    } else {
        decimal_spec(n / 10).push(digit_char(n % 10))
    }
}

/// The decimal representation of `n`.
pub fn decimal(n: u64) -> (r: Vec<char>)
    ensures
        r@ == decimal_spec(n as nat),
    decreases n,
{
    let d = ((n % 10) as u8 + 48u8) as char;
    proof {
        assert(d == digit_char((n % 10) as nat));
    }
    if n < 10 {
        let mut r = Vec::new();
        r.push(d);
        proof {
            assert(r@ =~= seq![digit_char(n as nat)]);
        }
        r
    } else {
        let mut r = decimal(n / 10);
        r.push(d);
        r
    }
}

/// The decimal representation of `n` as a string.
pub fn decimal_string(n: u64) -> (r: String)
    ensures
        r@ == decimal_spec(n as nat),
{
    string_of(&decimal(n))
}

proof fn lemma_decimal_digits(n: nat)
    ensures
        decimal_spec(n).len() > 0,
        all_digits(decimal_spec(n)),
        digits_value(decimal_spec(n)) == n,
    decreases n,
{
    let d = n % 10;
    assert(digit_char(d) as int == 48 + d);
    assert(is_digit(digit_char(d)));
    assert(digit_value(digit_char(d)) == d);
    if n >= 10 {
        lemma_decimal_digits(n / 10);
        let s = decimal_spec(n);
        assert(s.drop_last() =~= decimal_spec(n / 10));
        assert(s.last() == digit_char(d));
        assert(digits_value(s) == digits_value(s.drop_last()) * 10 + digit_value(s.last()));
        assert(n == (n / 10) * 10 + d);
    } else {
        let s = decimal_spec(n);
        assert(s.drop_last() =~= Seq::<char>::empty());
        assert(digits_value(s.drop_last()) == 0);
        assert(s.last() == digit_char(d));
        assert(digits_value(s) == digits_value(s.drop_last()) * 10 + digit_value(s.last()));
    }
}

/// Reading back the decimal representation of a number gives the number.
pub proof fn parse_decimal_roundtrip(n: u64)
    ensures
        parse_u64_spec(decimal_spec(n as nat)) == Some(n),
{
    lemma_decimal_digits(n as nat);
    let s = decimal_spec(n as nat);
    assert(is_digit(s[0]));
    assert(unsigned_digits(s) == s);
}

/// The run of decimal digits at the start of `s`.
pub open spec fn leading_digits(s: Seq<char>) -> Seq<char>
    decreases s.len(),
{
    if s.len() > 0 && is_digit(s[0]) {
        seq![s[0]] + leading_digits(s.drop_first())
    } else {
        seq![]
    }
}

proof fn lemma_leading_digits(s: Seq<char>, k: int)
    requires
        0 <= k <= s.len(),
        forall|j: int| 0 <= j < k ==> is_digit(s[j]),
        k == s.len() || !is_digit(s[k]),
    ensures
        leading_digits(s) == s.take(k),
    decreases k,
{
    if k > 0 {
        lemma_leading_digits(s.drop_first(), k - 1);
        assert(seq![s[0]] + s.drop_first().take(k - 1) =~= s.take(k));
    } else {
        assert(s.take(0) =~= Seq::<char>::empty());
    }
}

/// The run of decimal digits that starts at position `from` of `s`.
pub fn leading_digits_from(s: &Vec<char>, from: usize) -> (r: Vec<char>)
    requires
        from <= s.len(),
    ensures
        r@ == leading_digits(s@.skip(from as int)),
{
    let mut j = from;
    while j < s.len() && digit(s[j])
        invariant
            from <= j <= s.len(),
            forall|k: int| from <= k < j ==> is_digit(s@[k]),
        decreases s.len() - j,
    {
        j += 1;
    }
    proof {
        let t = s@.skip(from as int);
        lemma_leading_digits(t, j - from);
        assert(t.take(j - from) =~= s@.subrange(from as int, j as int));
    }
    copy_range(s, from, j)
}

/// The decimal digits of `s`, every other character left out.
pub open spec fn only_digits(s: Seq<char>) -> Seq<char> {
    s.filter(|c: char| is_digit(c))
}

/// `s` with every character but the decimal digits left out.
pub fn keep_digits(s: &Vec<char>) -> (r: Vec<char>)
    ensures
        r@ == only_digits(s@),
        all_digits(r@),
{
    let mut r: Vec<char> = Vec::new();
    let mut i: usize = 0;
    proof {
        assert(s@.take(0) =~= Seq::<char>::empty());
        reveal_with_fuel(Seq::<_>::filter, 1);
    }
    while i < s.len()
        invariant
            i <= s.len(),
            r@ == only_digits(s@.take(i as int)),
            all_digits(r@),
        decreases s.len() - i,
    {
        proof {
            reveal_with_fuel(Seq::<_>::filter, 1);
            assert(s@.take(i + 1).drop_last() =~= s@.take(i as int));
        }
        if digit(s[i]) {
            r.push(s[i]);
        }
        i += 1;
    }
    proof {
        assert(s@.take(i as int) =~= s@);
    }
    r
}

/// The number formed by the digits of `s` (other characters ignored), or
/// `None` when it exceeds `u64::MAX`.
pub fn digits_in(s: &Vec<char>) -> (r: Option<u64>)
    ensures
        r matches Some(v) ==> v == digits_value(only_digits(s@)),
        r is None ==> digits_value(only_digits(s@)) > u64::MAX,
{
    let d = keep_digits(s);
    proof {
        assert(d@.skip(0) =~= d@);
    }
    digits_number(&d, 0)
}

/// The number formed by a run of digits, or `None` when it exceeds `u64::MAX`.
pub fn number_of_digits(d: &Vec<char>) -> (r: Option<u64>)
    requires
        all_digits(d@),
    ensures
        r matches Some(v) ==> v == digits_value(d@),
        r is None ==> digits_value(d@) > u64::MAX,
{
    proof {
        assert(d@.skip(0) =~= d@);
    }
    digits_number(d, 0)
}

/// Whether two character vectors hold the same characters.
pub fn same(a: &Vec<char>, b: &Vec<char>) -> (r: bool)
    ensures
        r == (a@ == b@),
{
    if a.len() != b.len() {
        return false;
    }
    let mut i: usize = 0;
    while i < a.len()
        invariant
            a.len() == b.len(),
            i <= a.len(),
            forall|k: int| 0 <= k < i ==> a@[k] == b@[k],
        decreases a.len() - i,
    {
        if a[i] != b[i] {
            return false;
        }
        i += 1;
    }
    proof {
        assert(a@ =~= b@);
    }
    true
}

/// `str::to_lowercase`: the Unicode lowercase mapping of every character.
pub uninterp spec fn lowercase(s: Seq<char>) -> Seq<char>;

/// Calls `str::to_lowercase`. What it returns is named, not spelled out: the
/// Unicode case tables take pages; the result depends on the argument alone.
#[verifier::external_body]
pub(crate) fn to_lowercase(s: &str) -> (r: String)
    ensures
        r@ == lowercase(s@),
{
    s.to_lowercase()
}

} // verus!
