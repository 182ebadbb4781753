//! The scrolling graph: a window of samples, and the terminal frame that
//! draws it with braille cells, two samples per cell column.
use vstd::prelude::*;
use vstd::utf8::{encode_scalar, has_width_1_encoding, has_width_2_encoding, has_width_3_encoding};
use crate::text::{decimal, decimal_spec};

verus! {

broadcast use vstd::std_specs::vecdeque::group_vec_dequeue_axioms;

// ---------------------------------------------------------------------------
// The window of samples
// ---------------------------------------------------------------------------

/// A scrolling graph: the samples on screen, newest first, and the bytes of
/// the last frame drawn.
pub struct Grapher<T> {
    pub buffer: Vec<u8>,
    pub data: std::collections::VecDeque<T>,
}

/// `old` resized to `n`: cut from the back, or padded at the back with `fill`.
pub open spec fn fit_spec<T>(old: Seq<T>, n: nat, fill: T) -> Seq<T> {
    if old.len() >= n {
        old.take(n as int)
    } else {
        old + Seq::new((n - old.len()) as nat, |i: int| fill)
    }
}

impl<T: Copy> Grapher<T> {
    /// A graph of `len` samples, all `zero`, with nothing drawn yet.
    pub fn new(len: usize, zero: T) -> (s: Grapher<T>)
        ensures
            s.data@ == Seq::new(len as nat, |i: int| zero),
            s.buffer@ == Seq::<u8>::empty(),
    {
        let mut data = std::collections::VecDeque::new();
        let mut i: usize = 0;
        while i < len
            invariant
                i <= len,
                data@ == Seq::new(i as nat, |k: int| zero),
            decreases len - i,
        {
            data.push_back(zero);
            i += 1;
            proof {
                assert(data@ =~= Seq::new(i as nat, |k: int| zero));
            }
        }
        Grapher { buffer: Vec::with_capacity(1 << 20), data }
    }

    /// Adds the newest sample at the front and lets the oldest fall off the
    /// back, so the window keeps its length.
    pub fn push_point(&mut self, x: T)
        ensures
            final(self).data@ == (seq![x] + old(self).data@).drop_last(),
            final(self).buffer == old(self).buffer,
    {
        self.data.push_front(x);
        self.data.pop_back();
    }

    /// Resizes the window to `n` samples: the newest are kept, missing ones
    /// are `fill` at the old end.
    pub fn fit(&mut self, n: usize, fill: T)
        ensures
            final(self).data@ == fit_spec(old(self).data@, n as nat, fill),
            final(self).buffer == old(self).buffer,
    {
        let ghost start = self.data@;
        while self.data.len() > n
            invariant
                self.buffer == old(self).buffer,
                start.len() > n ==> self.data@ == start.take(self.data@.len() as int),
                start.len() > n ==> n <= self.data@.len() <= start.len(),
                start.len() <= n ==> self.data@ == start,
            decreases self.data@.len(),
        {
            let ghost before = self.data@;
            let popped = self.data.pop_back();
            proof {
                assert(popped is Some);
                assert(self.data@ =~= start.take(self.data@.len() as int));
            }
        }
        while self.data.len() < n
            invariant
                self.buffer == old(self).buffer,
                start.len() >= n ==> self.data@ == start.take(n as int),
                start.len() < n ==> self.data@ == start + Seq::new(
                    (self.data@.len() - start.len()) as nat,
                    |i: int| fill,
                ),
                start.len() < n ==> start.len() <= self.data@.len() <= n,
            decreases n - self.data@.len(),
        {
            self.data.push_back(fill);
            proof {
                assert(self.data@ =~= start + Seq::new(
                    (self.data@.len() - start.len()) as nat,
                    |i: int| fill,
                ));
            }
        }
        proof {
            if start.len() < n {
                assert(self.data@.len() == n);
            }
        }
    }

    /// The samples from the oldest to the newest.
    pub fn oldest_first(&self) -> (r: Vec<T>)
        ensures
            r@ == self.data@.reverse(),
    {
        let mut r: Vec<T> = Vec::new();
        let n = self.data.len();
        let mut i: usize = 0;
        while i < n
            invariant
                n == self.data@.len(),
                i <= n,
                r@ == self.data@.reverse().take(i as int),
            decreases n - i,
        {
            r.push(self.data[n - 1 - i]);
            i += 1;
            proof {
                assert(r@ =~= self.data@.reverse().take(i as int));
            }
        }
        proof {
            assert(self.data@.reverse().take(n as int) =~= self.data@.reverse());
        }
        r
    }
}

impl<T> Grapher<T> {
    /// Draws a frame into the buffer (see `render`); the samples stay.
    pub fn draw(
        &mut self,
        heights: &Vec<usize>,
        w: u16,
        h: u16,
        colors: &Vec<Option<(u8, u8, u8)>>,
    )
        requires
            heights.len() == 2 * w,
            colors.len() == h,
            forall|i: int| 0 <= i < heights.len() ==> heights@[i] <= 4 * h,
        ensures
            final(self).buffer@ == frame_spec(heights@, w as nat, h as nat, colors@),
            final(self).data@ == old(self).data@,
    {
        self.buffer = render(heights, w, h, colors);
    }
}

/// Adding a sample keeps the number of samples on screen.
pub proof fn push_point_keeps_length<T>(old: Seq<T>, x: T)
    ensures
        (seq![x] + old).drop_last().len() == old.len(),
        old.len() > 0 ==> (seq![x] + old).drop_last()[0] == x,
        forall|i: int|
            0 < i < old.len() ==> #[trigger] (seq![x] + old).drop_last()[i] == old[i - 1],
{
}

// ---------------------------------------------------------------------------
// Braille cells
// ---------------------------------------------------------------------------

pub open spec fn bit(b: bool, v: int) -> int {
    if b {
        v
    } else {
        0
    }
}

/// The braille pattern number of a cell whose left dot column (top to bottom)
/// is `l` and right one is `r`: dots 1-2-3 of the left column are bits 0-2,
/// dots 4-5-6 of the right column are bits 3-5, and the bottom dots are bits
/// 6 (left) and 7 (right).
pub open spec fn braille_spec(l: Seq<bool>, r: Seq<bool>) -> u8 {
    (bit(l[0], 1) + bit(l[1], 2) + bit(l[2], 4) + bit(r[0], 8) + bit(r[1], 16) + bit(r[2], 32)
        + bit(l[3], 64) + bit(r[3], 128)) as u8
}

/// The braille pattern number of a cell of two dot columns.
pub fn braille(dots: [[bool; 4]; 2]) -> (b: u8)
    ensures
        b == braille_spec(dots[0]@, dots[1]@),
{
    let l = dots[0];
    let r = dots[1];
    let mut x: u8 = 0;
    if l[0] {
        x = x + 1;
    }
    if l[1] {
        x = x + 2;
    }
    if l[2] {
        x = x + 4;
    }
    if r[0] {
        x = x + 8;
    }
    if r[1] {
        x = x + 16;
    }
    if r[2] {
        x = x + 32;
    }
    if l[3] {
        x = x + 64;
    }
    if r[3] {
        x = x + 128;
    }
    x
}

/// Every dot of a cell shows as its own bit of the pattern number, so two
/// cells with different dots never share a glyph.
pub proof fn braille_bits(
    l0: bool,
    l1: bool,
    l2: bool,
    l3: bool,
    r0: bool,
    r1: bool,
    r2: bool,
    r3: bool,
)
    ensures
        ({
            let c = braille_spec(seq![l0, l1, l2, l3], seq![r0, r1, r2, r3]);
            &&& (c & 1 != 0) == l0
            &&& (c & 2 != 0) == l1
            &&& (c & 4 != 0) == l2
            &&& (c & 8 != 0) == r0
            &&& (c & 16 != 0) == r1
            &&& (c & 32 != 0) == r2
            &&& (c & 64 != 0) == l3
            &&& (c & 128 != 0) == r3
        }),
{
    let c = braille_spec(seq![l0, l1, l2, l3], seq![r0, r1, r2, r3]);
    let a = pattern_bits(l0, l1, l2, l3, r0, r1, r2, r3);
    assert(c == a);
    assert({
        &&& (a & 1 != 0) == l0
        &&& (a & 2 != 0) == l1
        &&& (a & 4 != 0) == l2
        &&& (a & 8 != 0) == r0
        &&& (a & 16 != 0) == r1
        &&& (a & 32 != 0) == r2
        &&& (a & 64 != 0) == l3
        &&& (a & 128 != 0) == r3
    }) by (bit_vector)
        requires
            a == pattern_bits(l0, l1, l2, l3, r0, r1, r2, r3),
    ;
}

spec fn pattern_bits(
    l0: bool,
    l1: bool,
    l2: bool,
    l3: bool,
    r0: bool,
    r1: bool,
    r2: bool,
    r3: bool,
) -> u8 {
    ((if l0 { 1u8 } else { 0u8 }) + (if l1 { 2u8 } else { 0u8 }) + (if l2 { 4u8 } else { 0u8 })
        + (if r0 { 8u8 } else { 0u8 }) + (if r1 { 16u8 } else { 0u8 }) + (if r2 { 32u8 } else { 0u8 })
        + (if l3 { 64u8 } else { 0u8 }) + (if r3 { 128u8 } else { 0u8 })) as u8
}

/// The code point of a braille cell.
pub open spec fn braille_scalar(x: u8) -> u32 {
    (0x2800 + x) as u32
}

/// The UTF-8 bytes of the braille character with pattern number `x`
/// (U+2800 + `x`).
pub fn bl(x: u8) -> (b: [u8; 3])
    ensures
        b@ == encode_scalar(braille_scalar(x)),
{
    let b0: u8 = 0xE2u8;
    let b1: u8 = 0xA0u8 | (x >> 6u8);
    let b2: u8 = 0x80u8 | (x & 0x3Fu8);
    proof {
        let s = braille_scalar(x);
        assert(has_width_3_encoding(s));
        assert(b0 == 0xE0u8 | ((s >> 12u32) & 0x0Fu32) as u8) by (bit_vector)
            requires
                s == 0x2800u32 + x as u32,
                b0 == 0xE2u8,
        ;
        assert(b1 == 0x80u8 | ((s >> 6u32) & 0x3Fu32) as u8) by (bit_vector)
            requires
                s == 0x2800u32 + x as u32,
                b1 == 0xA0u8 | (x >> 6u8),
        ;
        assert(b2 == 0x80u8 | (s & 0x3Fu32) as u8) by (bit_vector)
            requires
                s == 0x2800u32 + x as u32,
                b2 == 0x80u8 | (x & 0x3Fu8),
        ;
    }
    let b: [u8; 3] = [b0, b1, b2];
    proof {
        let s = braille_scalar(x);
        assert(s == 0x2800 + x);
        assert(!has_width_1_encoding(s));
        assert(!has_width_2_encoding(s));
        assert(b@ =~= seq![b0, b1, b2]);
        assert(b@ =~= encode_scalar(braille_scalar(x)));
    }
    b
}

// ---------------------------------------------------------------------------
// Terminal escapes
// ---------------------------------------------------------------------------

/// The bytes of a text made of ASCII characters.
pub open spec fn ascii_bytes(s: Seq<char>) -> Seq<u8> {
    s.map_values(|c: char| c as u8)
}

/// The decimal digits of `n` as ASCII bytes.
pub open spec fn decimal_bytes(n: nat) -> Seq<u8> {
    ascii_bytes(decimal_spec(n))
}

/// `termion::clear::All`: erase the whole screen.
pub open spec fn clear_all_seq() -> Seq<u8> {
    ascii_bytes("\u{1b}[2J"@)
}

/// `termion::cursor::Goto(x, y)`: move the cursor to column `x`, row `y`.
pub open spec fn goto_seq(x: u16, y: u16) -> Seq<u8> {
    ascii_bytes("\u{1b}["@) + decimal_bytes(y as nat) + ascii_bytes(";"@) + decimal_bytes(x as nat)
        + ascii_bytes("H"@)
}

/// `termion::color::Rgb(r, g, b).fg_string()`: set a true-colour foreground.
pub open spec fn rgb_fg_seq(r: u8, g: u8, b: u8) -> Seq<u8> {
    ascii_bytes("\u{1b}[38;2;"@) + decimal_bytes(r as nat) + ascii_bytes(";"@) + decimal_bytes(
        g as nat,
    ) + ascii_bytes(";"@) + decimal_bytes(b as nat) + ascii_bytes("m"@)
}

/// Writes `termion::clear::All` with its `Display` impl. termion's source
/// writes the CSI sequence `ESC [ 2 J`.
#[verifier::external_body]
fn clear_all() -> (r: Vec<u8>)
    ensures
        r@ == clear_all_seq(),
{
    format!("{}", termion::clear::All).into_bytes()
}

/// Writes `termion::cursor::Goto(x, y)` with its `Display` impl. termion's
/// source writes `ESC [`, the row, `;`, the column and `H`, both numbers in
/// decimal; it first debug-asserts that the position is not `(0, 0)`, so that
/// position is left out.
#[verifier::external_body]
fn goto(x: u16, y: u16) -> (r: Vec<u8>)
    requires
        !(x == 0 && y == 0),
    ensures
        r@ == goto_seq(x, y),
{
    format!("{}", termion::cursor::Goto(x, y)).into_bytes()
}

/// Calls `termion::color::Rgb::fg_string`. termion's source builds
/// `ESC [38;2;`, then red, green and blue in decimal separated by `;`, then
/// `m`.
#[verifier::external_body]
fn rgb_fg(r: u8, g: u8, b: u8) -> (s: Vec<u8>)
    ensures
        s@ == rgb_fg_seq(r, g, b),
{
    termion::color::Rgb(r, g, b).fg_string().into_bytes()
}

/// Appends `b` to `out`.
pub fn push_all(out: &mut Vec<u8>, b: &Vec<u8>)
    ensures
        final(out)@ == old(out)@ + b@,
{
    let ghost start = out@;
    let mut i: usize = 0;
    while i < b.len()
        invariant
            i <= b.len(),
            out@ == start + b@.take(i as int),
        decreases b.len() - i,
    {
        out.push(b[i]);
        i += 1;
        proof {
            assert(b@.take(i as int) =~= b@.take(i - 1 as int).push(b@[i - 1]));
        }
    }
    proof {
        assert(b@.take(b.len() as int) =~= b@);
    }
}

/// The ASCII bytes of a literal text.
fn ascii_of(s: &str) -> (r: Vec<u8>)
    ensures
        r@ == ascii_bytes(s@),
{
    let cs = crate::text::chars_of(s);
    let mut r: Vec<u8> = Vec::new();
    let mut i: usize = 0;
    while i < cs.len()
        invariant
            i <= cs.len(),
            cs@ == s@,
            r@ == ascii_bytes(cs@.take(i as int)),
        decreases cs.len() - i,
    {
        r.push(cs[i] as u8);
        i += 1;
        proof {
            assert(ascii_bytes(cs@.take(i as int)) =~= ascii_bytes(cs@.take(i - 1 as int)).push(
                cs@[i - 1] as u8,
            ));
        }
    }
    proof {
        assert(cs@.take(cs.len() as int) =~= cs@);
    }
    r
}

// ---------------------------------------------------------------------------
// The frame
// ---------------------------------------------------------------------------

/// Dot row `row` (0 at the top) of a column `4 * h` dots tall that is filled
/// from the bottom up to `height` dots.
pub open spec fn dot(h: nat, height: nat, row: int) -> bool {
    row >= 4 * h - height
}

/// The four dots that text row `y` shows of such a column.
pub open spec fn dots_in_row(h: nat, height: nat, y: int) -> Seq<bool> {
    seq![dot(h, height, 4 * y), dot(h, height, 4 * y + 1), dot(h, height, 4 * y + 2), dot(h, height, 4 * y + 3)]
}

/// The braille pattern of text row `y` in the cell column whose left and
/// right dot columns are filled to `hl` and `hr` dots.
pub open spec fn cell_spec(hl: nat, hr: nat, h: nat, y: int) -> u8 {
    braille_spec(dots_in_row(h, hl, y), dots_in_row(h, hr, y))
}

/// The glyphs of the first `n` cell columns in text row `y`; cell column `x`
/// shows samples `2x` (left) and `2x + 1` (right).
pub open spec fn cells_spec(heights: Seq<usize>, h: nat, y: int, n: int) -> Seq<u8>
    decreases n,
{
    if n <= 0 {
        seq![]
    } else {
        cells_spec(heights, h, y, n - 1) + encode_scalar(
            braille_scalar(
                cell_spec(
                    heights[2 * (n - 1)] as nat,
                    heights[2 * (n - 1) + 1] as nat,
                    h,
                    y,
                ),
            ),
        )
    }
}

/// The colour escape for a row, if it has a colour.
pub open spec fn color_spec(c: Option<(u8, u8, u8)>) -> Seq<u8> {
    match c {
        Some((r, g, b)) => rgb_fg_seq(r, g, b),
        None => seq![],
    }
}

/// Text row `y`: its colour, its `w` glyphs, and a line break unless it is
/// the last row.
pub open spec fn row_spec(
    heights: Seq<usize>,
    w: nat,
    h: nat,
    colors: Seq<Option<(u8, u8, u8)>>,
    y: int,
) -> Seq<u8> {
    color_spec(colors[y]) + cells_spec(heights, h, y, w as int) + if y + 1 != h {
        ascii_bytes("\r\n"@)
    } else {
        seq![]
    }
}

/// The first `n` text rows.
pub open spec fn rows_spec(
    heights: Seq<usize>,
    w: nat,
    h: nat,
    colors: Seq<Option<(u8, u8, u8)>>,
    n: int,
) -> Seq<u8>
    decreases n,
{
    if n <= 0 {
        seq![]
    } else {
        rows_spec(heights, w, h, colors, n - 1) + row_spec(heights, w, h, colors, n - 1)
    }
}

/// A whole frame: line wrapping on, screen cleared, cursor home, then the
/// `h` rows of the graph.
pub open spec fn frame_spec(
    heights: Seq<usize>,
    w: nat,
    h: nat,
    colors: Seq<Option<(u8, u8, u8)>>,
) -> Seq<u8> {
    ascii_bytes("\u{1b}[?7h"@) + clear_all_seq() + goto_seq(1, 1) + rows_spec(
        heights,
        w,
        h,
        colors,
        h as int,
    )
}

/// The number of lit dots among the first `n` rows of a column filled to
/// `height` dots.
pub open spec fn lit_count(h: nat, height: nat, n: int) -> int
    decreases n,
{
    if n <= 0 {
        0
    } else {
        lit_count(h, height, n - 1) + if dot(h, height, n - 1) {
            1int
        } else {
            0
        }
    }
}

/// A column filled to `height` dots (at most its `4h`) lights exactly
/// `height` dots: the ones at the bottom.
pub proof fn column_lights_height(h: nat, height: nat)
    requires
        height <= 4 * h,
    ensures
        lit_count(h, height, 4 * h as int) == height,
{
    lemma_lit_count(h, height, 4 * h as int);
}

proof fn lemma_lit_count(h: nat, height: nat, n: int)
    requires
        height <= 4 * h,
        0 <= n <= 4 * h,
    ensures
        lit_count(h, height, n) == if n <= 4 * h - height {
            0
        } else {
            n - (4 * h - height)
        },
    decreases n,
{
    if n > 0 {
        lemma_lit_count(h, height, n - 1);
    }
}

/// Cells drawn from lower columns light no dot that the same cells drawn
/// from higher columns leave dark: where each left and right height is at
/// most the other drawing's, every glyph's dot bits are a subset of the
/// other's.
pub proof fn taller_columns_light_more(hl1: nat, hr1: nat, hl2: nat, hr2: nat, h: nat, y: int)
    requires
        hl1 <= hl2,
        hr1 <= hr2,
    ensures
        cell_spec(hl1, hr1, h, y) & !cell_spec(hl2, hr2, h, y) == 0,
{
    let a = dots_in_row(h, hl1, y);
    let b = dots_in_row(h, hr1, y);
    let c = dots_in_row(h, hl2, y);
    let d = dots_in_row(h, hr2, y);
    assert(cell_spec(hl1, hr1, h, y) == pattern_bits(a[0], a[1], a[2], a[3], b[0], b[1], b[2], b[3]));
    assert(cell_spec(hl2, hr2, h, y) == pattern_bits(c[0], c[1], c[2], c[3], d[0], d[1], d[2], d[3]));
    lemma_subset_bits(a[0], a[1], a[2], a[3], b[0], b[1], b[2], b[3], c[0], c[1], c[2], c[3], d[0], d[1], d[2], d[3]);
}

proof fn lemma_subset_bits(
    l0: bool, l1: bool, l2: bool, l3: bool, r0: bool, r1: bool, r2: bool, r3: bool,
    m0: bool, m1: bool, m2: bool, m3: bool, s0: bool, s1: bool, s2: bool, s3: bool,
)
    requires
        l0 ==> m0, l1 ==> m1, l2 ==> m2, l3 ==> m3,
        r0 ==> s0, r1 ==> s1, r2 ==> s2, r3 ==> s3,
    ensures
        pattern_bits(l0, l1, l2, l3, r0, r1, r2, r3) & !pattern_bits(m0, m1, m2, m3, s0, s1, s2, s3)
            == 0,
{
    let a = pattern_bits(l0, l1, l2, l3, r0, r1, r2, r3);
    let b = pattern_bits(m0, m1, m2, m3, s0, s1, s2, s3);
    assert(a & !b == 0) by (bit_vector)
        requires
            a == pattern_bits(l0, l1, l2, l3, r0, r1, r2, r3),
            b == pattern_bits(m0, m1, m2, m3, s0, s1, s2, s3),
            l0 ==> m0, l1 ==> m1, l2 ==> m2, l3 ==> m3,
            r0 ==> s0, r1 ==> s1, r2 ==> s2, r3 ==> s3,
    ;
}

/// In text row `y` of `h`, columns of height zero light no dot and columns
/// of the full `4h` light all eight.
pub proof fn empty_and_full_cells(h: nat, y: int)
    requires
        0 <= y < h,
    ensures
        cell_spec(0, 0, h, y) == 0,
        cell_spec(4 * h, 4 * h, h, y) == 255,
{
}

/// Two frames of the same size whose sample heights are pointwise ordered:
/// every glyph of the lower frame lights a subset of the dots of the
/// corresponding glyph of the higher one.
pub proof fn taller_frame_lights_more(heights1: Seq<usize>, heights2: Seq<usize>, w: nat, h: nat)
    requires
        heights1.len() == 2 * w,
        heights2.len() == 2 * w,
        forall|i: int| 0 <= i < 2 * w ==> heights1[i] <= heights2[i],
    ensures
        forall|x: int, y: int|
            0 <= x < w && 0 <= y < h ==> #[trigger] cell_spec(
                heights1[2 * x] as nat,
                heights1[2 * x + 1] as nat,
                h,
                y,
            ) & !cell_spec(heights2[2 * x] as nat, heights2[2 * x + 1] as nat, h, y) == 0,
{
    assert forall|x: int, y: int| 0 <= x < w && 0 <= y < h implies #[trigger] cell_spec(
        heights1[2 * x] as nat,
        heights1[2 * x + 1] as nat,
        h,
        y,
    ) & !cell_spec(heights2[2 * x] as nat, heights2[2 * x + 1] as nat, h, y) == 0 by {
        taller_columns_light_more(
            heights1[2 * x] as nat,
            heights1[2 * x + 1] as nat,
            heights2[2 * x] as nat,
            heights2[2 * x + 1] as nat,
            h,
            y,
        );
    }
}

fn cell(hl: usize, hr: usize, h: usize, y: usize) -> (c: u8)
    requires
        hl <= 4 * h,
        hr <= 4 * h,
        y < h,
        h <= 0xFFFF,
    ensures
        c == cell_spec(hl as nat, hr as nat, h as nat, y as int),
{
    let bl_ = 4 * h - hl;
    let br = 4 * h - hr;
    let r = 4 * y;
    braille(
        [
            [r >= bl_, r + 1 >= bl_, r + 2 >= bl_, r + 3 >= bl_],
            [r >= br, r + 1 >= br, r + 2 >= br, r + 3 >= br],
        ],
    )
}

fn render_cells(heights: &Vec<usize>, w: u16, h: u16, y: u16) -> (out: Vec<u8>)
    requires
        heights.len() == 2 * w,
        forall|i: int| 0 <= i < heights.len() ==> heights@[i] <= 4 * h,
        y < h,
    ensures
        out@ == cells_spec(heights@, h as nat, y as int, w as int),
{
    let mut out: Vec<u8> = Vec::new();
    let mut x: usize = 0;
    while x < w as usize
        invariant
            x <= w,
            y < h,
            heights.len() == 2 * w,
            forall|i: int| 0 <= i < heights.len() ==> heights@[i] <= 4 * h,
            out@ == cells_spec(heights@, h as nat, y as int, x as int),
        decreases w - x,
    {
        let c = cell(heights[2 * x], heights[2 * x + 1], h as usize, y as usize);
        let g = bl(c);
        out.push(g[0]);
        out.push(g[1]);
        out.push(g[2]);
        x += 1;
        proof {
            assert(out@ =~= cells_spec(heights@, h as nat, y as int, x as int));
        }
    }
    out
}

fn render_row(
    heights: &Vec<usize>,
    w: u16,
    h: u16,
    color: Option<(u8, u8, u8)>,
    y: u16,
) -> (out: Vec<u8>)
    requires
        heights.len() == 2 * w,
        forall|i: int| 0 <= i < heights.len() ==> heights@[i] <= 4 * h,
        y < h,
    ensures
        out@ == color_spec(color) + cells_spec(heights@, h as nat, y as int, w as int) + if y + 1
            != h {
            ascii_bytes("\r\n"@)
        } else {
            seq![]
        },
{
    let mut out: Vec<u8> = match color {
        Some((r, g, b)) => rgb_fg(r, g, b),
        None => Vec::new(),
    };
    push_all(&mut out, &render_cells(heights, w, h, y));
    if y + 1 != h {
        push_all(&mut out, &ascii_of("\r\n"));
    } else {
        proof {
            assert(out@ =~= out@ + Seq::<u8>::empty());
        }
    }
    out
}

/// The bytes of a frame of the graph, `w` cells wide and `h` rows tall.
/// `heights[i]` is how many of the `4h` dots of sample `i` (oldest first)
/// are lit, counted from the bottom; `colors[y]` is the colour of row `y`.
pub fn render(heights: &Vec<usize>, w: u16, h: u16, colors: &Vec<Option<(u8, u8, u8)>>) -> (out:
    Vec<u8>)
    requires
        heights.len() == 2 * w,
        colors.len() == h,
        forall|i: int| 0 <= i < heights.len() ==> heights@[i] <= 4 * h,
    ensures
        out@ == frame_spec(heights@, w as nat, h as nat, colors@),
{
    let mut out = ascii_of("\u{1b}[?7h");
    push_all(&mut out, &clear_all());
    push_all(&mut out, &goto(1, 1));
    let ghost prefix = out@;
    let mut y: u16 = 0;
    while y < h
        invariant
            y <= h,
            heights.len() == 2 * w,
            colors.len() == h,
            forall|i: int| 0 <= i < heights.len() ==> heights@[i] <= 4 * h,
            out@ == prefix + rows_spec(heights@, w as nat, h as nat, colors@, y as int),
        decreases h - y,
    {
        let row = render_row(heights, w, h, colors[y as usize], y);
        let ghost before = out@;
        push_all(&mut out, &row);
        y += 1;
        proof {
            assert(colors@[y - 1] == colors[y - 1 as int]);
            assert(out@ =~= prefix + rows_spec(heights@, w as nat, h as nat, colors@, y as int));
        }
    }
    out
}

// ---------------------------------------------------------------------------
// Where each row stands in a frame
// ---------------------------------------------------------------------------

/// The length of the frame's header: line wrapping on, screen cleared,
/// cursor home.
pub open spec fn header_len() -> int {
    (ascii_bytes("\u{1b}[?7h"@) + clear_all_seq() + goto_seq(1, 1)).len() as int
}

/// How many bytes a row's colour escape takes (none for a row without one).
pub open spec fn colour_len(c: Option<(u8, u8, u8)>) -> int {
    match c {
        Some((r, g, b)) => rgb_fg_seq(r, g, b).len() as int,
        None => 0,
    }
}

/// Where text row `y` starts in a frame `w` cells wide: after the header,
/// and after every earlier row's colour escape, its `w` three-byte glyphs
/// and its line break.
pub open spec fn row_start(w: nat, colors: Seq<Option<(u8, u8, u8)>>, y: int) -> int
    decreases y,
{
    if y <= 0 {
        header_len()
    } else {
        row_start(w, colors, y - 1) + colour_len(colors[y - 1]) + 3 * w + 2
    }
}

/// The UTF-8 glyph of cell column `x` in text row `y`: the braille
/// character for samples `2x` (left) and `2x + 1` (right).
pub open spec fn glyph_spec(heights: Seq<usize>, h: nat, y: int, x: int) -> Seq<u8> {
    encode_scalar(
        braille_scalar(cell_spec(heights[2 * x] as nat, heights[2 * x + 1] as nat, h, y)),
    )
}

proof fn lemma_glyph_len(c: u8)
    ensures
        encode_scalar(braille_scalar(c)).len() == 3,
{
    let s = braille_scalar(c);
    assert(s == 0x2800 + c);
    assert(has_width_3_encoding(s));
}

proof fn lemma_cells(heights: Seq<usize>, h: nat, y: int, n: int)
    requires
        0 <= n,
    ensures
        cells_spec(heights, h, y, n).len() == 3 * n,
        forall|x: int|
            0 <= x < n ==> cells_spec(heights, h, y, n).subrange(3 * x, 3 * x + 3)
                == #[trigger] glyph_spec(heights, h, y, x),
    decreases n,
{
    if n > 0 {
        lemma_cells(heights, h, y, n - 1);
        let prev = cells_spec(heights, h, y, n - 1);
        let g = glyph_spec(heights, h, y, n - 1);
        lemma_glyph_len(
            cell_spec(heights[2 * (n - 1)] as nat, heights[2 * (n - 1) + 1] as nat, h, y),
        );
        assert(cells_spec(heights, h, y, n) == prev + g);
        assert forall|x: int| 0 <= x < n implies cells_spec(heights, h, y, n).subrange(
            3 * x,
            3 * x + 3,
        ) == #[trigger] glyph_spec(heights, h, y, x) by {
            if x < n - 1 {
                assert(cells_spec(heights, h, y, n).subrange(3 * x, 3 * x + 3) =~= prev.subrange(
                    3 * x,
                    3 * x + 3,
                ));
            } else {
                assert(cells_spec(heights, h, y, n).subrange(3 * x, 3 * x + 3) =~= g);
            }
        }
    }
}

proof fn lemma_rows_prefix(
    heights: Seq<usize>,
    w: nat,
    h: nat,
    colors: Seq<Option<(u8, u8, u8)>>,
    m: int,
    n: int,
)
    requires
        0 <= m <= n,
    ensures
        rows_spec(heights, w, h, colors, m).len() <= rows_spec(heights, w, h, colors, n).len(),
        rows_spec(heights, w, h, colors, n).subrange(
            0,
            rows_spec(heights, w, h, colors, m).len() as int,
        ) == rows_spec(heights, w, h, colors, m),
    decreases n,
{
    let k = rows_spec(heights, w, h, colors, m).len() as int;
    if m < n {
        lemma_rows_prefix(heights, w, h, colors, m, n - 1);
        let a = rows_spec(heights, w, h, colors, n - 1);
        assert(rows_spec(heights, w, h, colors, n) == a + row_spec(heights, w, h, colors, n - 1));
        assert(rows_spec(heights, w, h, colors, n).subrange(0, k) =~= a.subrange(0, k));
    } else {
        assert(rows_spec(heights, w, h, colors, n).subrange(0, k) =~= rows_spec(
            heights,
            w,
            h,
            colors,
            n,
        ));
    }
}

proof fn lemma_rows_len(
    heights: Seq<usize>,
    w: nat,
    h: nat,
    colors: Seq<Option<(u8, u8, u8)>>,
    y: int,
)
    requires
        0 <= y < h,
    ensures
        rows_spec(heights, w, h, colors, y).len() == row_start(w, colors, y) - header_len(),
    decreases y,
{
    if y > 0 {
        reveal_strlit("\r\n");
        lemma_rows_len(heights, w, h, colors, y - 1);
        lemma_cells(heights, h, y - 1, w as int);
    }
}

proof fn lemma_sub_sub(f: Seq<u8>, s: int, l: int, a: int, b: int)
    requires
        0 <= s,
        s + l <= f.len(),
        0 <= a <= b <= l,
    ensures
        f.subrange(s + a, s + b) == f.subrange(s, s + l).subrange(a, b),
{
    assert(f.subrange(s + a, s + b) =~= f.subrange(s, s + l).subrange(a, b));
}

/// Every text row of a frame starts with its own colour: at the row's place
/// the frame holds the colour escape of `colors[y]` (nothing where the row
/// has none), then the row's `w` braille glyphs, then a line break unless it
/// is the last row.
pub proof fn rows_begin_with_their_colour(
    heights: Seq<usize>,
    w: nat,
    h: nat,
    colors: Seq<Option<(u8, u8, u8)>>,
    y: int,
)
    requires
        heights.len() == 2 * w,
        colors.len() == h,
        0 <= y < h,
    ensures
        ({
            let f = frame_spec(heights, w, h, colors);
            let s = row_start(w, colors, y);
            let c = colour_len(colors[y]);
            &&& s + c + 3 * w <= f.len()
            &&& colors[y] matches Some((r, g, b)) ==> f.subrange(s, s + c) == rgb_fg_seq(r, g, b)
            &&& forall|x: int|
                0 <= x < w ==> f.subrange(s + c + 3 * x, s + c + 3 * x + 3)
                    == #[trigger] glyph_spec(heights, h, y, x)
            &&& y + 1 < h ==> f.subrange(s + c + 3 * w, s + c + 3 * w + 2) == ascii_bytes(
                "\r\n"@,
            )
        }),
{
    reveal_strlit("\r\n");
    let pre = ascii_bytes("\u{1b}[?7h"@) + clear_all_seq() + goto_seq(1, 1);
    let f = frame_spec(heights, w, h, colors);
    let s = row_start(w, colors, y);
    let c = colour_len(colors[y]);
    let all = rows_spec(heights, w, h, colors, h as int);
    let before = rows_spec(heights, w, h, colors, y);
    let row = row_spec(heights, w, h, colors, y);
    let p = rows_spec(heights, w, h, colors, y + 1);
    let cells = cells_spec(heights, h, y, w as int);
    lemma_rows_prefix(heights, w, h, colors, y + 1, h as int);
    lemma_rows_len(heights, w, h, colors, y);
    lemma_cells(heights, h, y, w as int);
    assert(p == before + row);
    assert(f == pre + all);
    assert(s == pre.len() + before.len());
    assert(c == color_spec(colors[y]).len());
    let l = row.len() as int;
    assert(s + l <= f.len());
    assert(f.subrange(s, s + l) =~= row) by {
        assert forall|k: int| 0 <= k < l implies f.subrange(s, s + l)[k] == row[k] by {
            assert(all.subrange(0, p.len() as int)[before.len() + k] == p[before.len() + k]);
        }
    }
    assert(row == color_spec(colors[y]) + cells + if y + 1 != h {
        ascii_bytes("\r\n"@)
    } else {
        seq![]
    });
    if let Some((r, g, b)) = colors[y] {
        lemma_sub_sub(f, s, l, 0, c);
        assert(row.subrange(0, c) =~= rgb_fg_seq(r, g, b));
    }
    assert forall|x: int| 0 <= x < w implies f.subrange(s + c + 3 * x, s + c + 3 * x + 3)
        == #[trigger] glyph_spec(heights, h, y, x) by {
        lemma_sub_sub(f, s, l, c + 3 * x, c + 3 * x + 3);
        assert(row.subrange(c + 3 * x, c + 3 * x + 3) =~= cells.subrange(3 * x, 3 * x + 3));
    }
    if y + 1 < h {
        lemma_sub_sub(f, s, l, c + 3 * w, c + 3 * w + 2);
        assert(row.subrange(c + 3 * w, c + 3 * w + 2) =~= ascii_bytes("\r\n"@));
    }
}

} // verus!
