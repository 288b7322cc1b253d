//! Text measurement against a table of glyph advances, and the search for
//! the longest prefix of a text that fits a width.
use vstd::prelude::*;

verus! {

/// Widths in this library are exact below this bound; a measurement that
/// reaches it reports the bound itself.
pub const WIDTH_CAP: u64 = 0x1_0000_0000;

/// The advance widths of one character, in pixels, for each style.
#[derive(Debug, Clone, Copy, PartialEq, Eq)]
pub struct Glyph {
    pub ch: char,
    pub regular: u32,
    pub bold: u32,
    pub italic: u32,
    pub bold_italic: u32,
}

impl Glyph {
    pub open spec fn spec_advance(self, is_bold: bool, is_italic: bool) -> nat {
        if is_bold && is_italic {
            self.bold_italic as nat
        } else if is_bold {
            self.bold as nat
        } else if is_italic {
            self.italic as nat
        } else {
            self.regular as nat
        }
    }

    /// The advance of this glyph in the given style.
    pub fn advance(&self, is_bold: bool, is_italic: bool) -> (r: u32)
        ensures
            r == self.spec_advance(is_bold, is_italic),
    {
        if is_bold && is_italic {
            self.bold_italic
        } else if is_bold {
            self.bold
        } else if is_italic {
            self.italic
        } else {
            self.regular
        }
    }
}

/// The first glyph of the table that is for `c`.
pub open spec fn glyph_for(glyphs: Seq<Glyph>, c: char) -> Option<Glyph>
    decreases glyphs.len(),
{
    if glyphs.len() == 0 {
        None
    } else if glyphs[0].ch == c {
        Some(glyphs[0])
    } else {
        glyph_for(glyphs.drop_first(), c)
    }
}

/// Every character of `t` has a glyph in the table.
pub open spec fn has_glyphs(glyphs: Seq<Glyph>, t: Seq<char>) -> bool {
    forall|i: int| 0 <= i < t.len() ==> (#[trigger] glyph_for(glyphs, t[i])) is Some
}

pub open spec fn char_advance(glyphs: Seq<Glyph>, c: char, is_bold: bool, is_italic: bool) -> nat {
    match glyph_for(glyphs, c) {
        Some(g) => g.spec_advance(is_bold, is_italic),
        None => 0,
    }
}

/// The width of a text: the sum of its characters' advances.
pub open spec fn text_width(glyphs: Seq<Glyph>, t: Seq<char>, is_bold: bool, is_italic: bool) -> nat
    decreases t.len(),
{
    if t.len() == 0 {
        0
    } else {
        text_width(glyphs, t.drop_last(), is_bold, is_italic) + char_advance(
            glyphs,
            t.last(),
            is_bold,
            is_italic,
        )
    }
}

/// The number of leading characters of `t` that fit in `space`: the length
/// of the longest prefix whose width is at most `space`.
pub open spec fn fit_count(glyphs: Seq<Glyph>, t: Seq<char>, is_bold: bool, is_italic: bool, space: nat) -> nat
    decreases t.len(),
{
    if t.len() == 0 || text_width(glyphs, t, is_bold, is_italic) <= space {
        t.len()
    } else {
        fit_count(glyphs, t.drop_last(), is_bold, is_italic, space)
    }
}

pub open spec fn capped(w: nat) -> nat {
    if w < WIDTH_CAP {
        w
    } else {
        WIDTH_CAP as nat
    }
}

/// A longer prefix is never narrower.
pub proof fn lemma_prefix_width_mono(glyphs: Seq<Glyph>, t: Seq<char>, b: bool, it: bool, i: int, j: int)
    requires
        0 <= i <= j <= t.len(),
    ensures
        text_width(glyphs, t.subrange(0, i), b, it) <= text_width(glyphs, t.subrange(0, j), b, it),
    decreases j - i,
{
    if i < j {
        lemma_prefix_width_mono(glyphs, t, b, it, i, j - 1);
        assert(t.subrange(0, j).drop_last() =~= t.subrange(0, j - 1));
    }
}

/// The prefix of length `i + 1` is the prefix of length `i` and one more character.
pub proof fn lemma_prefix_width_step(glyphs: Seq<Glyph>, t: Seq<char>, b: bool, it: bool, i: int)
    requires
        0 <= i < t.len(),
    ensures
        text_width(glyphs, t.subrange(0, i + 1), b, it) == text_width(glyphs, t.subrange(0, i), b, it)
            + char_advance(glyphs, t[i], b, it),
{
    assert(t.subrange(0, i + 1).drop_last() =~= t.subrange(0, i));
}

/// `fit_count` is the one prefix length that fits while one more character does not.
pub proof fn lemma_fit_count_unique(glyphs: Seq<Glyph>, t: Seq<char>, b: bool, it: bool, space: nat, k: int)
    requires
        0 <= k <= t.len(),
        text_width(glyphs, t.subrange(0, k), b, it) <= space,
        k < t.len() ==> text_width(glyphs, t.subrange(0, k + 1), b, it) > space,
    ensures
        fit_count(glyphs, t, b, it, space) == k,
    decreases t.len(),
{
    assert(t.subrange(0, t.len() as int) =~= t);
    if t.len() == 0 || text_width(glyphs, t, b, it) <= space {
        if k < t.len() {
            lemma_prefix_width_mono(glyphs, t, b, it, k + 1, t.len() as int);
        }
    } else {
        let u = t.drop_last();
        assert(u.subrange(0, k) =~= t.subrange(0, k));
        if k < u.len() {
            assert(u.subrange(0, k + 1 as int) =~= t.subrange(0, k + 1 as int));
        }
        lemma_fit_count_unique(glyphs, u, b, it, space, k);
    }
}

/// What `fit_count` returns: a prefix that fits, and no longer one.
pub proof fn lemma_fit_count_bounds(glyphs: Seq<Glyph>, t: Seq<char>, b: bool, it: bool, space: nat)
    ensures
        fit_count(glyphs, t, b, it, space) <= t.len(),
        text_width(glyphs, t.subrange(0, fit_count(glyphs, t, b, it, space) as int), b, it) <= space,
        fit_count(glyphs, t, b, it, space) < t.len() ==> text_width(
            glyphs,
            t.subrange(0, fit_count(glyphs, t, b, it, space) + 1 as int),
            b,
            it,
        ) > space,
        text_width(glyphs, t, b, it) > space ==> fit_count(glyphs, t, b, it, space) < t.len(),
    decreases t.len(),
{
    assert(t.subrange(0, t.len() as int) =~= t);
    if t.len() == 0 || text_width(glyphs, t, b, it) <= space {
    } else {
        let u = t.drop_last();
        lemma_fit_count_bounds(glyphs, u, b, it, space);
        let k = fit_count(glyphs, u, b, it, space);
        assert(u.subrange(0, k as int) =~= t.subrange(0, k as int));
        if k < u.len() {
            assert(u.subrange(0, k + 1 as int) =~= t.subrange(0, k + 1 as int));
        } else {
            assert(u =~= t.subrange(0, k as int));
        }
    }
}

/// A font as the layout engine sees it: the height of a line and the advance
/// of each character it can show.
pub struct FontManager {
    pub line_height: u32,
    pub glyphs: Vec<Glyph>,
}

/// Why a text could not be measured or laid out.
#[derive(Debug, Clone, Copy, PartialEq, Eq)]
pub enum LayoutError {
    /// A character of the text has no glyph in the font.
    MeasurementFailure,
    /// The total height of the layout does not fit in an `i32`.
    HeightOverflow,
}

impl FontManager {
    /// A font with the given line height and no glyphs yet.
    pub fn new(line_height: u32) -> (r: FontManager)
        ensures
            r.line_height == line_height,
            r.glyphs@ == Seq::<Glyph>::empty(),
    {
        FontManager { line_height, glyphs: Vec::new() }
    }

    /// Adds a glyph at the end of the table. Where the table already has a
    /// glyph for the same character, that earlier one stays in use.
    pub fn add_glyph(&mut self, g: Glyph)
        ensures
            final(self).line_height == old(self).line_height,
            final(self).glyphs@ == old(self).glyphs@.push(g),
    {
        self.glyphs.push(g);
    }

    /// The glyph used for `c`, if the font has one.
    pub fn glyph(&self, c: char) -> (r: Option<Glyph>)
        ensures
            r == glyph_for(self.glyphs@, c),
    {
        let n = self.glyphs.len();
        let mut j: usize = 0;
        assert(self.glyphs@.subrange(0, n as int) =~= self.glyphs@);
        while j < n
            invariant
                n == self.glyphs@.len(),
                j <= n,
                glyph_for(self.glyphs@, c) == glyph_for(self.glyphs@.subrange(j as int, n as int), c),
            decreases n - j,
        {
            let ghost rest = self.glyphs@.subrange(j as int, n as int);
            assert(rest.drop_first() =~= self.glyphs@.subrange(j + 1, n as int));
            if self.glyphs[j].ch == c {
                return Some(self.glyphs[j]);
            }
            j = j + 1;
        }
        None
    }

    /// Whether every character of `t` has a glyph.
    pub fn can_measure(&self, t: &Vec<char>) -> (r: bool)
        ensures
            r == has_glyphs(self.glyphs@, t@),
    {
        let mut i: usize = 0;
        while i < t.len()
            invariant
                i <= t.len(),
                forall|j: int| 0 <= j < i ==> (#[trigger] glyph_for(self.glyphs@, t@[j])) is Some,
            decreases t.len() - i,
        {
            if self.glyph(t[i]).is_none() {
                return false;
            }
            i = i + 1;
        }
        true
    }

    /// The width of the first `n` characters of `t`, capped at `WIDTH_CAP`.
    pub fn prefix_width(&self, t: &Vec<char>, n: usize, is_bold: bool, is_italic: bool) -> (r: u64)
        requires
            n <= t.len(),
        ensures
            r == capped(text_width(self.glyphs@, t@.subrange(0, n as int), is_bold, is_italic)),
    {
        let mut acc: u64 = 0;
        let mut i: usize = 0;
        while i < n
            invariant
                n <= t.len(),
                i <= n,
                acc == capped(text_width(self.glyphs@, t@.subrange(0, i as int), is_bold, is_italic)),
            decreases n - i,
        {
            proof {
                lemma_prefix_width_step(self.glyphs@, t@, is_bold, is_italic, i as int);
            }
            let adv: u64 = match self.glyph(t[i]) {
                Some(g) => g.advance(is_bold, is_italic) as u64,
                None => 0,
            };
            if acc + adv >= WIDTH_CAP {
                acc = WIDTH_CAP;
            } else {
                acc = acc + adv;
            }
            i = i + 1;
        }
        acc
    }

    /// The number of leading characters of `t` whose width fits in
    /// `space_left`, found by binary search over prefix lengths.
    pub fn find_split_index(&self, t: &Vec<char>, is_bold: bool, is_italic: bool, space_left: u32) -> (r: usize)
        ensures
            r == fit_count(self.glyphs@, t@, is_bold, is_italic, space_left as nat),
    {
        let ghost g = self.glyphs@;
        let mut lo: usize = 0;
        let mut hi: usize = t.len();
        assert(t@.subrange(0, 0) =~= Seq::<char>::empty());
        while lo < hi
            invariant
                lo <= hi <= t.len(),
                text_width(g, t@.subrange(0, lo as int), is_bold, is_italic) <= space_left,
                hi < t.len() ==> text_width(g, t@.subrange(0, hi + 1), is_bold, is_italic) > space_left,
                g == self.glyphs@,
            decreases hi - lo,
        {
            let gap = hi - lo;
            let mid = lo + gap / 2 + gap % 2;
            let w = self.prefix_width(t, mid, is_bold, is_italic);
            if w <= space_left as u64 {
                lo = mid;
            } else {
                hi = mid - 1;
            }
        }
        proof {
            lemma_fit_count_unique(g, t@, is_bold, is_italic, space_left as nat, lo as int);
        }
        lo
    }

    /// The width and height of `text` in the given style. The width is
    /// capped at `u32::MAX`; the height is the line height.
    pub fn size_of_text_with_style(&self, text: &str, is_bold: bool, is_italic: bool) -> (r: Result<(u32, u32), LayoutError>)
        ensures
            has_glyphs(self.glyphs@, text@) ==> r == Ok::<(u32, u32), LayoutError>((
                if text_width(self.glyphs@, text@, is_bold, is_italic) < u32::MAX {
                    text_width(self.glyphs@, text@, is_bold, is_italic) as u32
                } else {
                    u32::MAX
                },
                self.line_height,
            )),
            !has_glyphs(self.glyphs@, text@) ==> r == Err::<(u32, u32), LayoutError>(LayoutError::MeasurementFailure),
    {
        let t = chars_of_str(text);
        if !self.can_measure(&t) {
            return Err(LayoutError::MeasurementFailure);
        }
        let w = self.prefix_width(&t, t.len(), is_bold, is_italic);
        assert(t@.subrange(0, t@.len() as int) =~= t@);
        let shown: u32 = if w < u32::MAX as u64 {
            w as u32
        } else {
            u32::MAX
        };
        Ok((shown, self.line_height))
    }

    /// `size_of_text_with_style` in the regular style.
    pub fn size_of_text(&self, text: &str) -> (r: Result<(u32, u32), LayoutError>)
        ensures
            r == self.spec_size(text@, false, false),
    {
        self.size_of_text_with_style(text, false, false)
    }

    pub open spec fn spec_size(&self, t: Seq<char>, is_bold: bool, is_italic: bool) -> Result<(u32, u32), LayoutError> {
        if has_glyphs(self.glyphs@, t) {
            Ok((
                if text_width(self.glyphs@, t, is_bold, is_italic) < u32::MAX {
                    text_width(self.glyphs@, t, is_bold, is_italic) as u32
                } else {
                    u32::MAX
                },
                self.line_height,
            ))
        } else {
            Err(LayoutError::MeasurementFailure)
        }
    }
}

fn chars_of_str(s: &str) -> (r: Vec<char>)
    ensures
        r@ == s@,
{
    crate::span::chars_of(s)
}

} // verus!
