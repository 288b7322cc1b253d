//! What drawing a layout puts where: the lines inside the viewport, and for
//! each span of them its shown text at its position.
use vstd::prelude::*;
use crate::span::{TextSpan, SpanModel, spans_view, chars_of};
use crate::font::{FontManager, Glyph, LayoutError, has_glyphs, text_width, capped};
use crate::layout::{TextLayout, lines_view};

verus! {

/// One piece of text to draw, with its top-left corner and style.
pub struct DrawItem {
    pub text: String,
    pub x: i64,
    pub y: i64,
    pub is_bold: bool,
    pub is_italic: bool,
}

pub struct ItemModel {
    pub text: Seq<char>,
    pub x: int,
    pub y: int,
    pub is_bold: bool,
    pub is_italic: bool,
}

impl View for DrawItem {
    type V = ItemModel;

    open spec fn view(&self) -> ItemModel {
        ItemModel { text: self.text@, x: self.x as int, y: self.y as int, is_bold: self.is_bold, is_italic: self.is_italic }
    }
}

pub open spec fn items_view(v: Seq<DrawItem>) -> Seq<ItemModel> {
    v.map_values(|d: DrawItem| d@)
}

/// The pen position after drawing the spans of `line` from `x0`: each span
/// moves it right by the width of its shown text (saturating at `i64::MAX`).
pub open spec fn pen_after(glyphs: Seq<Glyph>, line: Seq<SpanModel>, x0: int, use_ruby: bool) -> int
    decreases line.len(),
{
    if line.len() == 0 {
        x0
    } else {
        let x = pen_after(glyphs, line.drop_last(), x0, use_ruby) + capped(
            text_width(glyphs, line.last().display(use_ruby), line.last().is_bold, line.last().is_italic),
        );
        if x > i64::MAX { i64::MAX as int } else { x }
    }
}

/// The items of one line whose top is at `y`: one per span with text to show.
pub open spec fn line_items(glyphs: Seq<Glyph>, line: Seq<SpanModel>, x0: int, y: int, use_ruby: bool) -> Seq<ItemModel>
    decreases line.len(),
{
    if line.len() == 0 {
        Seq::empty()
    } else {
        let s = line.last();
        line_items(glyphs, line.drop_last(), x0, y, use_ruby) + if s.display(use_ruby).len() > 0 {
            seq![ItemModel {
                text: s.display(use_ruby),
                x: pen_after(glyphs, line.drop_last(), x0, use_ruby),
                y,
                is_bold: s.is_bold,
                is_italic: s.is_italic,
            }]
        } else {
            Seq::empty()
        }
    }
}

/// Every span of the line can be measured.
pub open spec fn line_measurable(glyphs: Seq<Glyph>, line: Seq<SpanModel>, use_ruby: bool) -> bool {
    forall|j: int| 0 <= j < line.len() ==> has_glyphs(glyphs, (#[trigger] line[j]).display(use_ruby))
}

/// A line whose top is at `y` shows in a viewport of height `vh`.
pub open spec fn line_visible(y: int, line_height: int, vh: int) -> bool {
    y > -line_height && y < vh
}

/// The items for all lines, line `i` having its top at `start + i * line_height`;
/// lines outside the viewport give none.
pub open spec fn plan_items(
    glyphs: Seq<Glyph>,
    lines: Seq<Seq<SpanModel>>,
    x0: int,
    start: int,
    line_height: int,
    vh: int,
    use_ruby: bool,
) -> Seq<ItemModel>
    decreases lines.len(),
{
    if lines.len() == 0 {
        Seq::empty()
    } else {
        let y = start + (lines.len() - 1) * line_height;
        plan_items(glyphs, lines.drop_last(), x0, start, line_height, vh, use_ruby) + if line_visible(y, line_height, vh) {
            line_items(glyphs, lines.last(), x0, y, use_ruby)
        } else {
            Seq::empty()
        }
    }
}

/// Every line inside the viewport can be measured.
pub open spec fn plan_measurable(
    glyphs: Seq<Glyph>,
    lines: Seq<Seq<SpanModel>>,
    start: int,
    line_height: int,
    vh: int,
    use_ruby: bool,
) -> bool
    decreases lines.len(),
{
    if lines.len() == 0 {
        true
    } else {
        let y = start + (lines.len() - 1) * line_height;
        plan_measurable(glyphs, lines.drop_last(), start, line_height, vh, use_ruby) && (line_visible(y, line_height, vh)
            ==> line_measurable(glyphs, lines.last(), use_ruby))
    }
}

proof fn lemma_plan_tail(
    glyphs: Seq<Glyph>,
    lines: Seq<Seq<SpanModel>>,
    x0: int,
    start: int,
    line_height: int,
    vh: int,
    use_ruby: bool,
    i: int,
)
    requires
        0 <= i <= lines.len(),
        line_height >= 0,
        start + i * line_height >= vh,
    ensures
        plan_items(glyphs, lines, x0, start, line_height, vh, use_ruby) == plan_items(
            glyphs,
            lines.subrange(0, i),
            x0,
            start,
            line_height,
            vh,
            use_ruby,
        ),
        plan_measurable(glyphs, lines, start, line_height, vh, use_ruby) == plan_measurable(
            glyphs,
            lines.subrange(0, i),
            start,
            line_height,
            vh,
            use_ruby,
        ),
    decreases lines.len(),
{
    if lines.len() == i {
        assert(lines.subrange(0, i) =~= lines);
    } else {
        let n = lines.len() as int;
        assert((n - 1) * line_height >= i * line_height) by (nonlinear_arith)
            requires
                n - 1 >= i,
                line_height >= 0,
        ;
        assert(lines.drop_last().subrange(0, i) =~= lines.subrange(0, i));
        lemma_plan_tail(glyphs, lines.drop_last(), x0, start, line_height, vh, use_ruby, i);
        let e = Seq::<ItemModel>::empty();
        assert(plan_items(glyphs, lines.drop_last(), x0, start, line_height, vh, use_ruby) + e
            =~= plan_items(glyphs, lines.drop_last(), x0, start, line_height, vh, use_ruby));
    }
}

proof fn lemma_plan_measurable_prefix(
    glyphs: Seq<Glyph>,
    lines: Seq<Seq<SpanModel>>,
    start: int,
    line_height: int,
    vh: int,
    use_ruby: bool,
    i: int,
)
    requires
        0 <= i <= lines.len(),
        plan_measurable(glyphs, lines, start, line_height, vh, use_ruby),
    ensures
        plan_measurable(glyphs, lines.subrange(0, i), start, line_height, vh, use_ruby),
    decreases lines.len(),
{
    if lines.len() == i {
        assert(lines.subrange(0, i) =~= lines);
    } else {
        assert(lines.drop_last().subrange(0, i) =~= lines.subrange(0, i));
        lemma_plan_measurable_prefix(glyphs, lines.drop_last(), start, line_height, vh, use_ruby, i);
    }
}

impl FontManager {
    fn line_plan(&self, line: &Vec<TextSpan>, x0: i32, y: i64, use_ruby: bool, items: &mut Vec<DrawItem>) -> (r: Result<(), LayoutError>)
        ensures
            r is Ok <==> line_measurable(self.glyphs@, spans_view(line@), use_ruby),
            r is Ok ==> items_view(final(items)@) == items_view(old(items)@) + line_items(
                self.glyphs@,
                spans_view(line@),
                x0 as int,
                y as int,
                use_ruby,
            ),
    {
        let ghost g = self.glyphs@;
        let ghost lv = spans_view(line@);
        let ghost before = items_view(items@);
        let mut pen: i64 = x0 as i64;
        let mut j: usize = 0;
        assert(lv.subrange(0, 0) =~= Seq::<SpanModel>::empty());
        assert(before + Seq::<ItemModel>::empty() =~= before);
        while j < line.len()
            invariant
                g == self.glyphs@,
                lv == spans_view(line@),
                j <= line@.len(),
                pen as int == pen_after(g, lv.subrange(0, j as int), x0 as int, use_ruby),
                items_view(items@) == before + line_items(g, lv.subrange(0, j as int), x0 as int, y as int, use_ruby),
                forall|k: int| 0 <= k < j ==> has_glyphs(g, (#[trigger] lv[k]).display(use_ruby)),
            decreases line.len() - j,
        {
            let ghost pre = lv.subrange(0, j + 1);
            assert(pre.drop_last() =~= lv.subrange(0, j as int));
            assert(pre.last() == line@[j as int]@);
            let span = &line[j];
            let shown = span.text_to_use(use_ruby);
            let d = chars_of(shown);
            if !self.can_measure(&d) {
                return Err(LayoutError::MeasurementFailure);
            }
            let w = self.prefix_width(&d, d.len(), span.is_bold, span.is_italic);
            assert(d@.subrange(0, d@.len() as int) =~= d@);
            let ghost old_items = items_view(items@);
            if d.len() > 0 {
                let item = DrawItem {
                    text: String::from_str(shown),
                    x: pen,
                    y,
                    is_bold: span.is_bold,
                    is_italic: span.is_italic,
                };
                items.push(item);
                assert(items_view(items@) =~= old_items.push(item@));
            }
            proof {
                let e = Seq::<ItemModel>::empty();
                if d.len() == 0 {
                    assert(old_items + e =~= old_items);
                }
                assert(before + line_items(g, pre, x0 as int, y as int, use_ruby) =~= items_view(items@));
            }
            pen = if pen as i128 + w as i128 > i64::MAX as i128 {
                i64::MAX
            } else {
                pen + w as i64
            };
            j = j + 1;
        }
        assert(lv.subrange(0, line@.len() as int) =~= lv);
        Ok(())
    }

    /// What drawing `layout` at `(x, y)` in a viewport `viewport_height`
    /// pixels high puts on screen: the lines from the top, each
    /// `line_height` below the last, starting `scroll_offset` above `y`;
    /// only lines that reach into the viewport give items, one for each span
    /// with text to show, placed after the spans before it on the line.
    pub fn draw_plan(&self, layout: &TextLayout, x: i32, y: i32, viewport_height: u32, use_ruby: bool) -> (r: Result<
        Vec<DrawItem>,
        LayoutError,
    >)
        ensures
            ({
                let lines = lines_view(layout.lines@);
                let start = y - layout.scroll_offset;
                let lh = self.line_height as int;
                let vh = viewport_height as int;
                &&& r is Ok <==> plan_measurable(self.glyphs@, lines, start, lh, vh, use_ruby)
                &&& r is Ok ==> items_view(r->Ok_0@) == plan_items(self.glyphs@, lines, x as int, start, lh, vh, use_ruby)
            }),
    {
        let ghost g = self.glyphs@;
        let ghost lines = lines_view(layout.lines@);
        let ghost start = y - layout.scroll_offset;
        let ghost lh = self.line_height as int;
        let ghost vh = viewport_height as int;
        let line_height: i64 = self.line_height as i64;
        let mut top: i64 = y as i64 - layout.scroll_offset as i64;
        let mut items: Vec<DrawItem> = Vec::new();
        let mut i: usize = 0;
        assert(lines.subrange(0, 0) =~= Seq::<Seq<SpanModel>>::empty());
        assert(items_view(items@) =~= Seq::<ItemModel>::empty());
        while i < layout.lines.len() && top < viewport_height as i64
            invariant
                g == self.glyphs@,
                lines == lines_view(layout.lines@),
                lh == line_height,
                vh == viewport_height as int,
                start == y - layout.scroll_offset,
                lh == self.line_height as int,
                line_height <= u32::MAX,
                i <= layout.lines@.len(),
                top as int == start + i * lh,
                top >= start,
                line_height >= 0,
                start >= i32::MIN as int - i32::MAX as int,
                start <= i32::MAX as int - i32::MIN as int,
                items_view(items@) == plan_items(g, lines.subrange(0, i as int), x as int, start, lh, vh, use_ruby),
                plan_measurable(g, lines.subrange(0, i as int), start, lh, vh, use_ruby),
            decreases layout.lines.len() - i,
        {
            let ghost pre = lines.subrange(0, i + 1);
            assert(pre.drop_last() =~= lines.subrange(0, i as int));
            assert(pre.last() == spans_view(layout.lines@[i as int]@));
            let ghost old_items = items_view(items@);
            if top > -line_height {
                let res = self.line_plan(&layout.lines[i], x, top, use_ruby, &mut items);
                match res {
                    Ok(()) => {},
                    Err(e) => {
                        proof {
                            assert(!line_measurable(g, spans_view(layout.lines@[i as int]@), use_ruby));
                            assert(!line_measurable(g, pre.last(), use_ruby));
                            assert(line_visible(top as int, lh, vh));
                            assert(pre.len() - 1 == i);
                            assert(start + (pre.len() - 1) * lh == top);
                            assert(!plan_measurable(g, pre, start, lh, vh, use_ruby));
                            if plan_measurable(g, lines, start, lh, vh, use_ruby) {
                                lemma_plan_measurable_prefix(g, lines, start, lh, vh, use_ruby, i + 1);
                                assert(lines.subrange(0, i + 1) == pre);
                            }
                            assert(!plan_measurable(g, lines, start, lh, vh, use_ruby));
                        }
                        return Err(e);
                    },
                }
            } else {
                assert(old_items + Seq::<ItemModel>::empty() =~= old_items);
            }
            assert(start + (i + 1) * lh == start + i * lh + lh) by (nonlinear_arith);
            top = top + line_height;
            i = i + 1;
        }
        proof {
            if i < layout.lines.len() {
                lemma_plan_tail(g, lines, x as int, start, lh, vh, use_ruby, i as int);
            } else {
                assert(lines.subrange(0, i as int) =~= lines);
            }
        }
        Ok(items)
    }
}

} // verus!
