//! The line-break engine: newline expansion, then greedy packing of spans
//! into lines no wider than a given width.
use vstd::prelude::*;
use std::collections::VecDeque;
use crate::span::{TextSpan, SpanModel, spans_view, chars_of, copy_opt_string};
use crate::font::{FontManager, Glyph, LayoutError, has_glyphs, text_width, fit_count, lemma_fit_count_bounds};

verus! {

/// A text laid out into lines, ready to draw and scroll.
pub struct TextLayout {
    /// Each inner vector is one line, its spans from left to right.
    pub lines: Vec<Vec<TextSpan>>,
    pub total_height: i32,
    pub scroll_offset: i32,
}

/// The models of a sequence of lines.
pub open spec fn lines_view(v: Seq<Vec<TextSpan>>) -> Seq<Seq<SpanModel>> {
    v.map_values(|l: Vec<TextSpan>| spans_view(l@))
}

// ---------------------------------------------------------------------------
// Newline expansion

/// A copy of `s` holding the fragment `frag`, or nothing for an empty fragment.
pub open spec fn text_piece(s: SpanModel, frag: Seq<char>) -> Seq<SpanModel> {
    if frag.len() == 0 {
        Seq::empty()
    } else {
        seq![SpanModel { text: frag, is_newline: false, ..s }]
    }
}

/// The hard-break marker made from `s`: no text, `is_newline` set.
pub open spec fn break_marker(s: SpanModel) -> SpanModel {
    SpanModel { text: Seq::empty(), is_newline: true, ..s }
}

/// Expansion of the rest `t` of the text of `s`, where `frag` is the part of
/// the current fragment already read.
pub open spec fn expand_text(s: SpanModel, t: Seq<char>, frag: Seq<char>) -> Seq<SpanModel>
    decreases t.len(),
{
    if t.len() == 0 {
        text_piece(s, frag)
    } else if t[0] == '\n' {
        text_piece(s, frag) + seq![break_marker(s)] + expand_text(s, t.drop_first(), Seq::empty())
    } else {
        expand_text(s, t.drop_first(), frag.push(t[0]))
    }
}

/// A span split at each newline of its text: the non-empty fragments, with a
/// break marker where each newline stood. A span that is itself a break
/// marker stays one break, whatever text it carries.
pub open spec fn expand_span(s: SpanModel) -> Seq<SpanModel> {
    if s.is_newline {
        seq![break_marker(s)]
    } else {
        expand_text(s, s.text, Seq::empty())
    }
}

/// The work queue made from a sequence of spans.
pub open spec fn expand_spans(v: Seq<SpanModel>) -> Seq<SpanModel>
    decreases v.len(),
{
    if v.len() == 0 {
        Seq::empty()
    } else {
        expand_spans(v.drop_last()) + expand_span(v.last())
    }
}

fn text_fragment(span: &TextSpan, text: String) -> (r: TextSpan)
    ensures
        r@ == (SpanModel { text: text@, is_newline: false, ..span@ }),
{
    TextSpan {
        text,
        new_text_block: span.new_text_block,
        is_bold: span.is_bold,
        is_italic: span.is_italic,
        is_ruby_base: span.is_ruby_base,
        ruby_text: copy_opt_string(&span.ruby_text),
        is_newline: false,
    }
}

fn newline_marker(span: &TextSpan) -> (r: TextSpan)
    ensures
        r@ == break_marker(span@),
{
    TextSpan {
        text: String::new(),
        new_text_block: span.new_text_block,
        is_bold: span.is_bold,
        is_italic: span.is_italic,
        is_ruby_base: span.is_ruby_base,
        ruby_text: copy_opt_string(&span.ruby_text),
        is_newline: true,
    }
}

fn expand_span_into(span: &TextSpan, out: &mut VecDeque<TextSpan>)
    ensures
        spans_view(final(out)@) == spans_view(old(out)@) + expand_span(span@),
{
    let ghost s = span@;
    let ghost before = spans_view(out@);
    if span.is_newline {
        out.push_back(newline_marker(span));
        assert(spans_view(out@) =~= before + expand_span(s));
        return;
    }
    let t = chars_of(span.text.as_str());
    let n = t.len();
    let mut start: usize = 0;
    let mut j: usize = 0;
    assert(t@.subrange(0, n as int) =~= t@);
    assert(t@.subrange(0, 0) =~= Seq::<char>::empty());
    while j < n
        invariant
            n == t@.len(),
            t@ == span.text@,
            s == span@,
            start <= j <= n,
            spans_view(out@) + expand_text(s, t@.subrange(j as int, n as int), t@.subrange(start as int, j as int))
                == before + expand_span(s),
        decreases n - j,
    {
        let ghost rest = t@.subrange(j as int, n as int);
        let ghost frag = t@.subrange(start as int, j as int);
        let ghost out0 = spans_view(out@);
        assert(rest.drop_first() =~= t@.subrange(j + 1, n as int));
        assert(rest[0] == t@[j as int]);
        if t[j] == '\n' {
            if start < j {
                let piece = String::from_str(span.text.as_str().substring_char(start, j));
                out.push_back(text_fragment(span, piece));
            }
            assert(spans_view(out@) =~= out0 + text_piece(s, frag));
            out.push_back(newline_marker(span));
            assert(spans_view(out@) =~= out0 + text_piece(s, frag) + seq![break_marker(s)]);
            start = j + 1;
            assert(t@.subrange(start as int, start as int) =~= Seq::<char>::empty());
            assert(out0 + (text_piece(s, frag) + seq![break_marker(s)] + expand_text(s, rest.drop_first(), Seq::empty()))
                =~= out0 + text_piece(s, frag) + seq![break_marker(s)] + expand_text(s, rest.drop_first(), Seq::empty()));
        } else {
            assert(frag.push(t@[j as int]) =~= t@.subrange(start as int, j + 1));
        }
        j = j + 1;
    }
    let ghost out0 = spans_view(out@);
    if start < n {
        let piece = String::from_str(span.text.as_str().substring_char(start, n));
        out.push_back(text_fragment(span, piece));
    }
    assert(spans_view(out@) =~= out0 + text_piece(s, t@.subrange(start as int, n as int)));
}

/// Stage one of layout: each span's text split at its newlines.
pub fn expand_newlines(spans: &[TextSpan]) -> (r: VecDeque<TextSpan>)
    ensures
        spans_view(r@) == expand_spans(spans_view(spans@)),
{
    let mut out: VecDeque<TextSpan> = VecDeque::new();
    let mut i: usize = 0;
    assert(spans_view(out@) =~= Seq::<SpanModel>::empty());
    assert(spans_view(spans@).subrange(0, 0) =~= Seq::<SpanModel>::empty());
    while i < spans.len()
        invariant
            i <= spans@.len(),
            spans_view(out@) == expand_spans(spans_view(spans@).subrange(0, i as int)),
        decreases spans.len() - i,
    {
        let ghost pre = spans_view(spans@).subrange(0, i + 1);
        assert(pre.drop_last() =~= spans_view(spans@).subrange(0, i as int));
        assert(pre.last() == spans@[i as int]@);
        expand_span_into(&spans[i], &mut out);
        i = i + 1;
    }
    assert(spans_view(spans@).subrange(0, spans@.len() as int) =~= spans_view(spans@));
    out
}

// ---------------------------------------------------------------------------
// Greedy packing

/// Where packing stands: the spans still to place (the front one possibly a
/// remainder), the line being filled and its width, and the finished lines.
pub struct PackState {
    pub queue: Seq<SpanModel>,
    pub line: Seq<SpanModel>,
    pub width: nat,
    pub lines: Seq<Seq<SpanModel>>,
}

/// The part of `s` that shows its first `k` characters.
pub open spec fn fit_part(s: SpanModel, k: nat, use_ruby: bool) -> SpanModel {
    if use_ruby {
        SpanModel { ruby_text: Some(s.display(true).subrange(0, k as int)), ..s }
    } else {
        SpanModel { text: s.text.subrange(0, k as int), ..s }
    }
}

/// The part of `s` that shows what follows its first `k` characters.
pub open spec fn rest_part(s: SpanModel, k: nat, use_ruby: bool) -> SpanModel {
    if use_ruby {
        SpanModel {
            text: Seq::empty(),
            ruby_text: Some(s.display(true).subrange(k as int, s.display(true).len() as int)),
            ..s
        }
    } else {
        SpanModel { text: s.text.subrange(k as int, s.text.len() as int), ..s }
    }
}

pub open spec fn fresh_line(lines: Seq<Seq<SpanModel>>, queue: Seq<SpanModel>) -> PackState {
    PackState { queue, line: Seq::empty(), width: 0, lines }
}

/// The state after a span with `new_text_block` comes to the front: the
/// line being filled is finished first if it holds anything.
pub open spec fn flushed(st: PackState) -> PackState {
    if st.queue[0].new_text_block && st.line.len() > 0 {
        fresh_line(st.lines.push(st.line), st.queue)
    } else {
        st
    }
}

/// Placement of the front span, which is not a break marker: whole if it
/// fits; else the longest prefix that fits, the rest going back to the front
/// of the queue for a fresh line; else the span waits for a fresh line; and
/// on a fresh line where not even one character fits, that one character
/// alone.
pub open spec fn place_front(glyphs: Seq<Glyph>, max_width: nat, use_ruby: bool, fl: PackState) -> PackState {
    let s = fl.queue[0];
    let rest = fl.queue.drop_first();
    let d = s.display(use_ruby);
    let sw = text_width(glyphs, d, s.is_bold, s.is_italic);
    let space: nat = if fl.width <= max_width { (max_width - fl.width) as nat } else { 0 };
    if sw <= space {
        PackState { queue: rest, line: fl.line.push(s), width: fl.width + sw, lines: fl.lines }
    } else {
        let k = fit_count(glyphs, d, s.is_bold, s.is_italic, space);
        if k > 0 {
            fresh_line(fl.lines.push(fl.line.push(fit_part(s, k, use_ruby))), seq![rest_part(s, k, use_ruby)] + rest)
        } else if fl.line.len() > 0 {
            fresh_line(fl.lines.push(fl.line), fl.queue)
        } else if d.len() == 0 {
            fresh_line(fl.lines.push(fl.line), rest)
        } else if d.len() == 1 {
            fresh_line(fl.lines.push(fl.line.push(fit_part(s, 1, use_ruby))), rest)
        } else {
            fresh_line(fl.lines.push(fl.line.push(fit_part(s, 1, use_ruby))), seq![rest_part(s, 1, use_ruby)] + rest)
        }
    }
}

/// One step of packing: a break marker at the front of the queue ends the
/// line; any other span is placed after a block flush.
pub open spec fn pack_step(glyphs: Seq<Glyph>, max_width: nat, use_ruby: bool, st: PackState) -> PackState {
    if st.queue[0].is_newline {
        fresh_line(st.lines.push(st.line), st.queue.drop_first())
    } else {
        place_front(glyphs, max_width, use_ruby, flushed(st))
    }
}

/// Characters still to place, plus one for each queued span.
pub open spec fn queue_weight(q: Seq<SpanModel>, use_ruby: bool) -> nat
    decreases q.len(),
{
    if q.len() == 0 {
        0
    } else {
        q[0].display(use_ruby).len() + 1 + queue_weight(q.drop_first(), use_ruby)
    }
}

pub open spec fn pack_measure(st: PackState, use_ruby: bool) -> nat {
    2 * queue_weight(st.queue, use_ruby) + if st.line.len() > 0 { 1nat } else { 0nat }
}

/// Each step of packing brings it closer to its end.
pub proof fn lemma_step_decreases(glyphs: Seq<Glyph>, max_width: nat, use_ruby: bool, st: PackState)
    requires
        st.queue.len() > 0,
    ensures
        pack_measure(pack_step(glyphs, max_width, use_ruby, st), use_ruby) < pack_measure(st, use_ruby),
{
    let s = st.queue[0];
    let rest = st.queue.drop_first();
    let d = s.display(use_ruby);
    let fl = flushed(st);
    let space: nat = if fl.width <= max_width { (max_width - fl.width) as nat } else { 0 };
    lemma_fit_count_bounds(glyphs, d, s.is_bold, s.is_italic, space);
    let k = fit_count(glyphs, d, s.is_bold, s.is_italic, space);
    if k > 0 {
        assert((seq![rest_part(s, k, use_ruby)] + rest).drop_first() =~= rest);
    }
    if d.len() > 1 {
        assert((seq![rest_part(s, 1, use_ruby)] + rest).drop_first() =~= rest);
    }
}

/// The lines that packing ends with, from state `st`.
pub open spec fn pack(glyphs: Seq<Glyph>, max_width: nat, use_ruby: bool, st: PackState) -> Seq<Seq<SpanModel>>
    decreases pack_measure(st, use_ruby),
    via pack_decreases
{
    if st.queue.len() == 0 {
        finish(st)
    } else {
        pack(glyphs, max_width, use_ruby, pack_step(glyphs, max_width, use_ruby, st))
    }
}

#[via_fn]
proof fn pack_decreases(glyphs: Seq<Glyph>, max_width: nat, use_ruby: bool, st: PackState) {
    if st.queue.len() != 0 {
        lemma_step_decreases(glyphs, max_width, use_ruby, st);
    }
}

/// The finished lines once the queue is empty: the last line if it holds
/// anything, and one empty line if there would be none.
pub open spec fn finish(st: PackState) -> Seq<Seq<SpanModel>> {
    let all = if st.line.len() > 0 { st.lines.push(st.line) } else { st.lines };
    if all.len() == 0 {
        seq![Seq::<SpanModel>::empty()]
    } else {
        all
    }
}

/// The lines that `layout_text_binary` produces.
pub open spec fn layout_lines(glyphs: Seq<Glyph>, spans: Seq<SpanModel>, max_width: nat, use_ruby: bool) -> Seq<Seq<SpanModel>> {
    pack(glyphs, max_width, use_ruby, fresh_line(Seq::empty(), expand_spans(spans)))
}

/// Every span of the queue that shows text can be measured.
pub open spec fn queue_measurable(glyphs: Seq<Glyph>, q: Seq<SpanModel>, use_ruby: bool) -> bool {
    forall|i: int| 0 <= i < q.len() && !(#[trigger] q[i]).is_newline ==> has_glyphs(glyphs, q[i].display(use_ruby))
}

/// What `layout_text_binary` returns for the given font, spans, width and mode.
pub open spec fn layout_outcome(
    glyphs: Seq<Glyph>,
    line_height: u32,
    spans: Seq<SpanModel>,
    max_width: u32,
    use_ruby: bool,
    r: Result<TextLayout, LayoutError>,
) -> bool {
    let lines = layout_lines(glyphs, spans, max_width as nat, use_ruby);
    if !queue_measurable(glyphs, expand_spans(spans), use_ruby) {
        r == Err::<TextLayout, LayoutError>(LayoutError::MeasurementFailure)
    } else if line_height * lines.len() > i32::MAX {
        r == Err::<TextLayout, LayoutError>(LayoutError::HeightOverflow)
    } else {
        &&& r is Ok
        &&& lines_view(r->Ok_0.lines@) == lines
        &&& r->Ok_0.total_height == line_height * lines.len()
        &&& r->Ok_0.scroll_offset == 0
    }
}

pub open spec fn state_of(queue: Seq<TextSpan>, line: Seq<TextSpan>, width: u64, lines: Seq<Vec<TextSpan>>) -> PackState {
    PackState { queue: spans_view(queue), line: spans_view(line), width: width as nat, lines: lines_view(lines) }
}

fn split_span(span: TextSpan, at: usize, use_ruby: bool) -> (r: (TextSpan, TextSpan))
    requires
        at <= span@.display(use_ruby).len(),
    ensures
        r.0@ == fit_part(span@, at as nat, use_ruby),
        r.1@ == rest_part(span@, at as nat, use_ruby),
{
    let shown = span.text_to_use(use_ruby);
    let n = shown.unicode_len();
    let head = String::from_str(shown.substring_char(0, at));
    let tail = String::from_str(shown.substring_char(at, n));
    if use_ruby {
        let fit = TextSpan {
            text: span.text.clone(),
            new_text_block: span.new_text_block,
            is_bold: span.is_bold,
            is_italic: span.is_italic,
            is_ruby_base: span.is_ruby_base,
            ruby_text: Some(head),
            is_newline: span.is_newline,
        };
        let rest = TextSpan {
            text: String::new(),
            new_text_block: span.new_text_block,
            is_bold: span.is_bold,
            is_italic: span.is_italic,
            is_ruby_base: span.is_ruby_base,
            ruby_text: Some(tail),
            is_newline: span.is_newline,
        };
        (fit, rest)
    } else {
        let fit = TextSpan {
            text: head,
            new_text_block: span.new_text_block,
            is_bold: span.is_bold,
            is_italic: span.is_italic,
            is_ruby_base: span.is_ruby_base,
            ruby_text: copy_opt_string(&span.ruby_text),
            is_newline: span.is_newline,
        };
        let rest = TextSpan {
            text: tail,
            new_text_block: span.new_text_block,
            is_bold: span.is_bold,
            is_italic: span.is_italic,
            is_ruby_base: span.is_ruby_base,
            ruby_text: span.ruby_text,
            is_newline: span.is_newline,
        };
        (fit, rest)
    }
}

proof fn lemma_push_views(lines: Seq<Vec<TextSpan>>, line: Vec<TextSpan>)
    ensures
        lines_view(lines.push(line)) == lines_view(lines).push(spans_view(line@)),
{
    assert(lines_view(lines.push(line)) =~= lines_view(lines).push(spans_view(line@)));
}

proof fn lemma_push_span(line: Seq<TextSpan>, s: TextSpan)
    ensures
        spans_view(line.push(s)) == spans_view(line).push(s@),
{
    assert(spans_view(line.push(s)) =~= spans_view(line).push(s@));
}

proof fn lemma_push_front(q: Seq<TextSpan>, s: TextSpan)
    ensures
        spans_view(seq![s] + q) == seq![s@] + spans_view(q),
{
    assert(spans_view(seq![s] + q) =~= seq![s@] + spans_view(q));
}

impl FontManager {
    /// Checks that every span of the queue that shows text can be measured.
    fn queue_can_measure(&self, queue: &VecDeque<TextSpan>, use_ruby: bool) -> (r: bool)
        ensures
            r == queue_measurable(self.glyphs@, spans_view(queue@), use_ruby),
    {
        let mut i: usize = 0;
        while i < queue.len()
            invariant
                i <= queue@.len(),
                forall|j: int| 0 <= j < i && !(#[trigger] spans_view(queue@)[j]).is_newline
                    ==> has_glyphs(self.glyphs@, spans_view(queue@)[j].display(use_ruby)),
            decreases queue@.len() - i,
        {
            let s = &queue[i];
            if !s.is_newline {
                let d = chars_of(s.text_to_use(use_ruby));
                if !self.can_measure(&d) {
                    assert(!spans_view(queue@)[i as int].is_newline);
                    return false;
                }
            }
            i = i + 1;
        }
        true
    }

    /// Lays out `spans` into lines no wider than `max_width` pixels, showing
    /// ruby text in place of base text when `use_ruby` is set.
    pub fn layout_text_binary(&self, spans: &[TextSpan], max_width: u32, use_ruby: bool) -> (r: Result<TextLayout, LayoutError>)
        ensures
            layout_outcome(self.glyphs@, self.line_height, spans_view(spans@), max_width, use_ruby, r),
    {
        let ghost g = self.glyphs@;
        let ghost mw = max_width as nat;
        let mut queue = expand_newlines(spans);
        if !self.queue_can_measure(&queue, use_ruby) {
            return Err(LayoutError::MeasurementFailure);
        }
        let mut lines: Vec<Vec<TextSpan>> = Vec::new();
        let mut line: Vec<TextSpan> = Vec::new();
        let mut width: u64 = 0;
        assert(spans_view(line@) =~= Seq::<SpanModel>::empty());
        assert(lines_view(lines@) =~= Seq::<Seq<SpanModel>>::empty());
        assert(state_of(queue@, line@, width, lines@) == fresh_line(Seq::empty(), expand_spans(spans_view(spans@))));
        let ghost target = layout_lines(g, spans_view(spans@), mw, use_ruby);
        while queue.len() > 0
            invariant
                g == self.glyphs@,
                mw == max_width as nat,
                width <= max_width,
                pack(g, mw, use_ruby, state_of(queue@, line@, width, lines@)) == target,
            decreases pack_measure(state_of(queue@, line@, width, lines@), use_ruby),
        {
            let ghost st = state_of(queue@, line@, width, lines@);
            let ghost next = pack_step(g, mw, use_ruby, st);
            proof {
                lemma_step_decreases(g, mw, use_ruby, st);
            }
            let span = queue.pop_front().unwrap();
            assert(spans_view(queue@) =~= st.queue.drop_first());
            assert(span@ == st.queue[0]);
            if span.is_newline {
                proof { lemma_push_views(lines@, line); }
                lines.push(line);
                line = Vec::new();
                width = 0;
                assert(spans_view(line@) =~= Seq::<SpanModel>::empty());
                assert(state_of(queue@, line@, width, lines@) == next);
            } else {
                if span.new_text_block && line.len() > 0 {
                    proof { lemma_push_views(lines@, line); }
                    lines.push(line);
                    line = Vec::new();
                    width = 0;
                    assert(spans_view(line@) =~= Seq::<SpanModel>::empty());
                }
                let ghost fl = state_of(seq![span] + queue@, line@, width, lines@);
                proof {
                    lemma_push_front(queue@, span);
                    assert(st.queue =~= seq![st.queue[0]] + st.queue.drop_first());
                    assert(spans_view(seq![span] + queue@) == st.queue);
                    assert(fl == flushed(st));
                }
                let d = chars_of(span.text_to_use(use_ruby));
                let space: u32 = (max_width as u64 - width) as u32;
                let sw = self.prefix_width(&d, d.len(), span.is_bold, span.is_italic);
                assert(d@.subrange(0, d@.len() as int) =~= d@);
                if sw <= space as u64 {
                    proof { lemma_push_span(line@, span); }
                    line.push(span);
                    width = width + sw;
                    assert(state_of(queue@, line@, width, lines@) == next);
                } else {
                    let k = self.find_split_index(&d, span.is_bold, span.is_italic, space);
                    proof {
                        lemma_fit_count_bounds(g, d@, span.is_bold, span.is_italic, space as nat);
                    }
                    if k > 0 {
                        let (fit, rest) = split_span(span, k, use_ruby);
                        proof {
                            lemma_push_span(line@, fit);
                            lemma_push_front(queue@, rest);
                        }
                        line.push(fit);
                        queue.push_front(rest);
                    } else if line.len() > 0 {
                        proof { lemma_push_front(queue@, span); }
                        queue.push_front(span);
                    } else if d.len() == 0 {
                    } else {
                        let (fit, rest) = split_span(span, 1, use_ruby);
                        proof {
                            lemma_push_span(line@, fit);
                            lemma_push_front(queue@, rest);
                        }
                        line.push(fit);
                        if d.len() > 1 {
                            queue.push_front(rest);
                        }
                    }
                    proof { lemma_push_views(lines@, line); }
                    lines.push(line);
                    line = Vec::new();
                    width = 0;
                    assert(spans_view(line@) =~= Seq::<SpanModel>::empty());
                    assert(state_of(queue@, line@, width, lines@) == next);
                }
            }
        }
        let ghost last = state_of(queue@, line@, width, lines@);
        if line.len() > 0 {
            proof { lemma_push_views(lines@, line); }
            lines.push(line);
        }
        if lines.len() == 0 {
            let empty: Vec<TextSpan> = Vec::new();
            proof { lemma_push_views(lines@, empty); }
            lines.push(empty);
        }
        assert(lines_view(lines@) =~= finish(last));
        let count = lines.len();
        if self.line_height > 0 && count as u64 > i32::MAX as u64 {
            assert(self.line_height * count > i32::MAX) by (nonlinear_arith)
                requires
                    self.line_height >= 1,
                    count > i32::MAX,
            ;
            return Err(LayoutError::HeightOverflow);
        }
        let total: u64 = if self.line_height == 0 {
            0
        } else {
            assert(self.line_height * count <= u32::MAX * i32::MAX) by (nonlinear_arith)
                requires
                    self.line_height <= u32::MAX,
                    count <= i32::MAX,
            ;
            self.line_height as u64 * count as u64
        };
        if total > i32::MAX as u64 {
            return Err(LayoutError::HeightOverflow);
        }
        Ok(TextLayout { lines, total_height: total as i32, scroll_offset: 0 })
    }
}


// ---------------------------------------------------------------------------
// What every layout satisfies

/// The text shown by a sequence of spans, break markers left out.
pub open spec fn shown_text(q: Seq<SpanModel>, use_ruby: bool) -> Seq<char>
    decreases q.len(),
{
    if q.len() == 0 {
        Seq::empty()
    } else {
        shown_text(q.drop_last(), use_ruby) + if q.last().is_newline {
            Seq::<char>::empty()
        } else {
            q.last().display(use_ruby)
        }
    }
}

/// The text shown by a sequence of lines, one after the other.
pub open spec fn lines_text(ls: Seq<Seq<SpanModel>>, use_ruby: bool) -> Seq<char>
    decreases ls.len(),
{
    if ls.len() == 0 {
        Seq::empty()
    } else {
        lines_text(ls.drop_last(), use_ruby) + shown_text(ls.last(), use_ruby)
    }
}

/// The width of a line: the sum of the widths of its spans' shown text.
pub open spec fn line_width(glyphs: Seq<Glyph>, line: Seq<SpanModel>, use_ruby: bool) -> nat
    decreases line.len(),
{
    if line.len() == 0 {
        0
    } else {
        line_width(glyphs, line.drop_last(), use_ruby) + text_width(
            glyphs,
            line.last().display(use_ruby),
            line.last().is_bold,
            line.last().is_italic,
        )
    }
}

/// A line fits in `max_width`, or it is one span of one character that is
/// wider than the whole width and so stands alone.
pub open spec fn line_fits(glyphs: Seq<Glyph>, line: Seq<SpanModel>, max_width: nat, use_ruby: bool) -> bool {
    line_width(glyphs, line, use_ruby) <= max_width || (line.len() == 1 && line[0].display(use_ruby).len() == 1)
}

pub open spec fn pack_inv(glyphs: Seq<Glyph>, max_width: nat, use_ruby: bool, st: PackState, all: Seq<char>) -> bool {
    &&& st.width == line_width(glyphs, st.line, use_ruby)
    &&& st.width <= max_width
    &&& forall|i: int| 0 <= i < st.lines.len() ==> line_fits(glyphs, #[trigger] st.lines[i], max_width, use_ruby)
    &&& lines_text(st.lines, use_ruby) + shown_text(st.line, use_ruby) + shown_text(st.queue, use_ruby) == all
}

proof fn lemma_shown_concat(a: Seq<SpanModel>, b: Seq<SpanModel>, use_ruby: bool)
    ensures
        shown_text(a + b, use_ruby) == shown_text(a, use_ruby) + shown_text(b, use_ruby),
    decreases b.len(),
{
    if b.len() == 0 {
        assert(a + b =~= a);
        assert(shown_text(a, use_ruby) + shown_text(b, use_ruby) =~= shown_text(a, use_ruby));
    } else {
        lemma_shown_concat(a, b.drop_last(), use_ruby);
        assert((a + b).drop_last() =~= a + b.drop_last());
        assert(shown_text(a + b, use_ruby) =~= shown_text(a, use_ruby) + shown_text(b, use_ruby));
    }
}

proof fn lemma_shown_front(s: SpanModel, q: Seq<SpanModel>, use_ruby: bool)
    ensures
        shown_text(seq![s] + q, use_ruby) == (if s.is_newline { Seq::<char>::empty() } else { s.display(use_ruby) })
            + shown_text(q, use_ruby),
{
    lemma_shown_concat(seq![s], q, use_ruby);
    assert(seq![s].drop_last() =~= Seq::<SpanModel>::empty());
    assert(shown_text(Seq::<SpanModel>::empty(), use_ruby) =~= Seq::<char>::empty());
    assert(shown_text(seq![s], use_ruby) =~= (if s.is_newline { Seq::<char>::empty() } else { s.display(use_ruby) }));
}

proof fn lemma_push_line(glyphs: Seq<Glyph>, max_width: nat, use_ruby: bool, lines: Seq<Seq<SpanModel>>, line: Seq<SpanModel>)
    requires
        forall|i: int| 0 <= i < lines.len() ==> line_fits(glyphs, #[trigger] lines[i], max_width, use_ruby),
        line_fits(glyphs, line, max_width, use_ruby),
    ensures
        forall|i: int| 0 <= i < lines.push(line).len() ==> line_fits(glyphs, #[trigger] lines.push(line)[i], max_width, use_ruby),
        lines_text(lines.push(line), use_ruby) == lines_text(lines, use_ruby) + shown_text(line, use_ruby),
{
    assert(lines.push(line).drop_last() =~= lines);
    assert forall|i: int| 0 <= i < lines.push(line).len() implies line_fits(glyphs, #[trigger] lines.push(line)[i], max_width, use_ruby) by {
        if i < lines.len() {
            assert(lines.push(line)[i] == lines[i]);
        }
    }
}

proof fn lemma_push_span_text(glyphs: Seq<Glyph>, use_ruby: bool, line: Seq<SpanModel>, s: SpanModel)
    requires
        !s.is_newline,
    ensures
        shown_text(line.push(s), use_ruby) == shown_text(line, use_ruby) + s.display(use_ruby),
        line_width(glyphs, line.push(s), use_ruby) == line_width(glyphs, line, use_ruby) + text_width(
            glyphs,
            s.display(use_ruby),
            s.is_bold,
            s.is_italic,
        ),
{
    assert(line.push(s).drop_last() =~= line);
}

/// Placing the front span keeps the invariant.
proof fn lemma_place_keeps(glyphs: Seq<Glyph>, max_width: nat, use_ruby: bool, fl: PackState, all: Seq<char>)
    requires
        fl.queue.len() > 0,
        !fl.queue[0].is_newline,
        pack_inv(glyphs, max_width, use_ruby, fl, all),
    ensures
        pack_inv(glyphs, max_width, use_ruby, place_front(glyphs, max_width, use_ruby, fl), all),
{
    let s = fl.queue[0];
    let rest = fl.queue.drop_first();
    let e = Seq::<SpanModel>::empty();
    assert(fl.queue =~= seq![s] + rest);
    lemma_shown_front(s, rest, use_ruby);
    assert(shown_text(e, use_ruby) =~= Seq::<char>::empty());
    assert(line_width(glyphs, e, use_ruby) == 0);
    let d = s.display(use_ruby);
    let sw = text_width(glyphs, d, s.is_bold, s.is_italic);
    let space: nat = (max_width - fl.width) as nat;
    let next = place_front(glyphs, max_width, use_ruby, fl);
    if sw <= space {
        lemma_push_span_text(glyphs, use_ruby, fl.line, s);
        assert(lines_text(next.lines, use_ruby) + shown_text(next.line, use_ruby) + shown_text(next.queue, use_ruby) =~= all);
    } else {
        lemma_fit_count_bounds(glyphs, d, s.is_bold, s.is_italic, space);
        let k = fit_count(glyphs, d, s.is_bold, s.is_italic, space);
        if k > 0 {
            lemma_place_split(glyphs, max_width, use_ruby, fl, all, k);
        } else if fl.line.len() > 0 || d.len() == 0 {
            lemma_push_line(glyphs, max_width, use_ruby, fl.lines, fl.line);
            assert(lines_text(next.lines, use_ruby) + shown_text(next.line, use_ruby) + shown_text(next.queue, use_ruby) =~= all);
        } else {
            lemma_place_forced(glyphs, max_width, use_ruby, fl, all);
        }
    }
}

proof fn lemma_place_split(glyphs: Seq<Glyph>, max_width: nat, use_ruby: bool, fl: PackState, all: Seq<char>, k: nat)
    requires
        fl.queue.len() > 0,
        !fl.queue[0].is_newline,
        pack_inv(glyphs, max_width, use_ruby, fl, all),
        0 < k < fl.queue[0].display(use_ruby).len(),
        fl.width + text_width(glyphs, fl.queue[0].display(use_ruby).subrange(0, k as int), fl.queue[0].is_bold, fl.queue[0].is_italic)
            <= max_width,
    ensures
        pack_inv(
            glyphs,
            max_width,
            use_ruby,
            fresh_line(
                fl.lines.push(fl.line.push(fit_part(fl.queue[0], k, use_ruby))),
                seq![rest_part(fl.queue[0], k, use_ruby)] + fl.queue.drop_first(),
            ),
            all,
        ),
{
    let s = fl.queue[0];
    let rest = fl.queue.drop_first();
    let e = Seq::<SpanModel>::empty();
    let d = s.display(use_ruby);
    assert(fl.queue =~= seq![s] + rest);
    lemma_shown_front(s, rest, use_ruby);
    assert(shown_text(e, use_ruby) =~= Seq::<char>::empty());
    assert(line_width(glyphs, e, use_ruby) == 0);
    let f = fit_part(s, k, use_ruby);
    let r = rest_part(s, k, use_ruby);
    assert(f.display(use_ruby) == d.subrange(0, k as int));
    assert(r.display(use_ruby) == d.subrange(k as int, d.len() as int));
    lemma_push_span_text(glyphs, use_ruby, fl.line, f);
    lemma_push_line(glyphs, max_width, use_ruby, fl.lines, fl.line.push(f));
    lemma_shown_front(r, rest, use_ruby);
    assert(d.subrange(0, k as int) + d.subrange(k as int, d.len() as int) =~= d);
    let next = fresh_line(fl.lines.push(fl.line.push(f)), seq![r] + rest);
    assert(lines_text(next.lines, use_ruby) + shown_text(next.line, use_ruby) + shown_text(next.queue, use_ruby) =~= all);
}

proof fn lemma_place_forced(glyphs: Seq<Glyph>, max_width: nat, use_ruby: bool, fl: PackState, all: Seq<char>)
    requires
        fl.queue.len() > 0,
        !fl.queue[0].is_newline,
        pack_inv(glyphs, max_width, use_ruby, fl, all),
        fl.line.len() == 0,
        fl.queue[0].display(use_ruby).len() > 0,
    ensures
        fl.queue[0].display(use_ruby).len() == 1 ==> pack_inv(
            glyphs,
            max_width,
            use_ruby,
            fresh_line(fl.lines.push(fl.line.push(fit_part(fl.queue[0], 1, use_ruby))), fl.queue.drop_first()),
            all,
        ),
        fl.queue[0].display(use_ruby).len() > 1 ==> pack_inv(
            glyphs,
            max_width,
            use_ruby,
            fresh_line(
                fl.lines.push(fl.line.push(fit_part(fl.queue[0], 1, use_ruby))),
                seq![rest_part(fl.queue[0], 1, use_ruby)] + fl.queue.drop_first(),
            ),
            all,
        ),
{
    let s = fl.queue[0];
    let rest = fl.queue.drop_first();
    let e = Seq::<SpanModel>::empty();
    let d = s.display(use_ruby);
    assert(fl.queue =~= seq![s] + rest);
    lemma_shown_front(s, rest, use_ruby);
    assert(shown_text(e, use_ruby) =~= Seq::<char>::empty());
    assert(line_width(glyphs, e, use_ruby) == 0);
    let f = fit_part(s, 1, use_ruby);
    let r = rest_part(s, 1, use_ruby);
    assert(f.display(use_ruby) == d.subrange(0, 1));
    assert(r.display(use_ruby) == d.subrange(1, d.len() as int));
    lemma_push_span_text(glyphs, use_ruby, fl.line, f);
    assert(fl.line =~= e);
    assert(fl.line.push(f) =~= seq![f]);
    assert(line_fits(glyphs, fl.line.push(f), max_width, use_ruby));
    lemma_push_line(glyphs, max_width, use_ruby, fl.lines, fl.line.push(f));
    assert(d.subrange(0, 1) + d.subrange(1, d.len() as int) =~= d);
    if d.len() > 1 {
        lemma_shown_front(r, rest, use_ruby);
        let next = fresh_line(fl.lines.push(fl.line.push(f)), seq![r] + rest);
        assert(lines_text(next.lines, use_ruby) + shown_text(next.line, use_ruby) + shown_text(next.queue, use_ruby) =~= all);
    } else {
        assert(d.subrange(0, 1) =~= d);
        let next = fresh_line(fl.lines.push(fl.line.push(f)), rest);
        assert(lines_text(next.lines, use_ruby) + shown_text(next.line, use_ruby) + shown_text(next.queue, use_ruby) =~= all);
    }
}

/// One packing step keeps the invariant.
proof fn lemma_step_keeps(glyphs: Seq<Glyph>, max_width: nat, use_ruby: bool, st: PackState, all: Seq<char>)
    requires
        st.queue.len() > 0,
        pack_inv(glyphs, max_width, use_ruby, st, all),
    ensures
        pack_inv(glyphs, max_width, use_ruby, pack_step(glyphs, max_width, use_ruby, st), all),
{
    let s = st.queue[0];
    let rest = st.queue.drop_first();
    let e = Seq::<SpanModel>::empty();
    assert(st.queue =~= seq![s] + rest);
    lemma_shown_front(s, rest, use_ruby);
    assert(shown_text(e, use_ruby) =~= Seq::<char>::empty());
    assert(line_width(glyphs, e, use_ruby) == 0);
    if s.is_newline {
        lemma_push_line(glyphs, max_width, use_ruby, st.lines, st.line);
        assert(lines_text(st.lines.push(st.line), use_ruby) + shown_text(e, use_ruby) + shown_text(rest, use_ruby) =~= all);
    } else {
        let fl = flushed(st);
        if s.new_text_block && st.line.len() > 0 {
            lemma_push_line(glyphs, max_width, use_ruby, st.lines, st.line);
            assert(lines_text(fl.lines, use_ruby) + shown_text(fl.line, use_ruby) + shown_text(fl.queue, use_ruby) =~= all);
        }
        lemma_place_keeps(glyphs, max_width, use_ruby, fl, all);
    }
}

proof fn lemma_pack_laws(glyphs: Seq<Glyph>, max_width: nat, use_ruby: bool, st: PackState, all: Seq<char>)
    requires
        pack_inv(glyphs, max_width, use_ruby, st, all),
    ensures
        pack(glyphs, max_width, use_ruby, st).len() >= 1,
        forall|i: int| 0 <= i < pack(glyphs, max_width, use_ruby, st).len()
            ==> line_fits(glyphs, #[trigger] pack(glyphs, max_width, use_ruby, st)[i], max_width, use_ruby),
        lines_text(pack(glyphs, max_width, use_ruby, st), use_ruby) == all,
    decreases pack_measure(st, use_ruby),
{
    if st.queue.len() == 0 {
        let e = Seq::<SpanModel>::empty();
        assert(shown_text(st.queue, use_ruby) =~= Seq::<char>::empty());
        if st.line.len() > 0 {
            lemma_push_line(glyphs, max_width, use_ruby, st.lines, st.line);
            assert(lines_text(st.lines.push(st.line), use_ruby) =~= all);
        } else {
            assert(shown_text(st.line, use_ruby) =~= Seq::<char>::empty());
            assert(lines_text(st.lines, use_ruby) =~= all);
            if st.lines.len() == 0 {
                let one = seq![e];
                assert(st.lines =~= Seq::<Seq<SpanModel>>::empty());
                assert(lines_text(Seq::<Seq<SpanModel>>::empty(), use_ruby) =~= Seq::<char>::empty());
                assert(one.drop_last() =~= Seq::<Seq<SpanModel>>::empty());
                assert(line_width(glyphs, e, use_ruby) == 0);
                assert(line_fits(glyphs, one[0], max_width, use_ruby));
                assert(shown_text(e, use_ruby) =~= Seq::<char>::empty());
                assert(lines_text(one, use_ruby) =~= all);
            }
        }
    } else {
        lemma_step_decreases(glyphs, max_width, use_ruby, st);
        lemma_step_keeps(glyphs, max_width, use_ruby, st, all);
        lemma_pack_laws(glyphs, max_width, use_ruby, pack_step(glyphs, max_width, use_ruby, st), all);
    }
}

/// Every layout has at least one line, every line fits in the width (or is
/// a single character too wide for any line), and the lines show, in order,
/// exactly the text of the expanded spans with the break markers left out:
/// no character is lost or repeated.
pub proof fn layout_lines_laws(glyphs: Seq<Glyph>, spans: Seq<SpanModel>, max_width: nat, use_ruby: bool)
    ensures
        layout_lines(glyphs, spans, max_width, use_ruby).len() >= 1,
        forall|i: int| 0 <= i < layout_lines(glyphs, spans, max_width, use_ruby).len()
            ==> line_fits(glyphs, #[trigger] layout_lines(glyphs, spans, max_width, use_ruby)[i], max_width, use_ruby),
        lines_text(layout_lines(glyphs, spans, max_width, use_ruby), use_ruby)
            == shown_text(expand_spans(spans), use_ruby),
{
    let st = fresh_line(Seq::empty(), expand_spans(spans));
    let all = shown_text(expand_spans(spans), use_ruby);
    assert(shown_text(Seq::<SpanModel>::empty(), use_ruby) =~= Seq::<char>::empty());
    assert(lines_text(Seq::<Seq<SpanModel>>::empty(), use_ruby) =~= Seq::<char>::empty());
    assert(lines_text(st.lines, use_ruby) + shown_text(st.line, use_ruby) + shown_text(st.queue, use_ruby) =~= all);
    lemma_pack_laws(glyphs, max_width, use_ruby, st, all);
}

/// `t` with its newline characters removed.
pub open spec fn drop_newlines(t: Seq<char>) -> Seq<char>
    decreases t.len(),
{
    if t.len() == 0 {
        Seq::empty()
    } else {
        (if t[0] == '\n' { Seq::<char>::empty() } else { seq![t[0]] }) + drop_newlines(t.drop_first())
    }
}

/// The base text of a sequence of spans, one after the other, newlines and
/// break markers removed.
pub open spec fn plain_text(v: Seq<SpanModel>) -> Seq<char>
    decreases v.len(),
{
    if v.len() == 0 {
        Seq::empty()
    } else {
        plain_text(v.drop_last()) + if v.last().is_newline {
            Seq::<char>::empty()
        } else {
            drop_newlines(v.last().text)
        }
    }
}

proof fn lemma_expand_text_shown(s: SpanModel, t: Seq<char>, frag: Seq<char>)
    ensures
        shown_text(expand_text(s, t, frag), false) == frag + drop_newlines(t),
    decreases t.len(),
{
    let e = Seq::<SpanModel>::empty();
    assert(shown_text(e, false) =~= Seq::<char>::empty());
    if frag.len() > 0 {
        let one = seq![SpanModel { text: frag, is_newline: false, ..s }];
        assert(one.drop_last() =~= e);
    }
    assert(shown_text(text_piece(s, frag), false) =~= frag);
    if t.len() == 0 {
        assert(frag + drop_newlines(t) =~= frag);
    } else if t[0] == '\n' {
        lemma_expand_text_shown(s, t.drop_first(), Seq::empty());
        let m = seq![break_marker(s)];
        assert(m.drop_last() =~= e);
        assert(shown_text(m, false) =~= Seq::<char>::empty());
        lemma_shown_concat(text_piece(s, frag), m, false);
        lemma_shown_concat(text_piece(s, frag) + m, expand_text(s, t.drop_first(), Seq::empty()), false);
        assert(shown_text(expand_text(s, t, frag), false) =~= frag + drop_newlines(t));
    } else {
        lemma_expand_text_shown(s, t.drop_first(), frag.push(t[0]));
        assert(frag.push(t[0]) + drop_newlines(t.drop_first()) =~= frag + drop_newlines(t));
    }
}

proof fn lemma_expand_spans_shown(v: Seq<SpanModel>)
    ensures
        shown_text(expand_spans(v), false) == plain_text(v),
    decreases v.len(),
{
    if v.len() == 0 {
        assert(shown_text(Seq::<SpanModel>::empty(), false) =~= Seq::<char>::empty());
    } else {
        lemma_expand_spans_shown(v.drop_last());
        lemma_shown_concat(expand_spans(v.drop_last()), expand_span(v.last()), false);
        if v.last().is_newline {
            lemma_shown_front(break_marker(v.last()), Seq::empty(), false);
            assert(seq![break_marker(v.last())] + Seq::<SpanModel>::empty() =~= seq![break_marker(v.last())]);
            assert(shown_text(Seq::<SpanModel>::empty(), false) =~= Seq::<char>::empty());
            assert(shown_text(expand_span(v.last()), false) =~= Seq::<char>::empty());
        } else {
            lemma_expand_text_shown(v.last(), v.last().text, Seq::empty());
            assert(Seq::<char>::empty() + drop_newlines(v.last().text) =~= drop_newlines(v.last().text));
        }
    }
}

/// Without ruby, the lines show exactly the base text of the input spans,
/// newlines removed.
pub proof fn layout_keeps_plain_text(glyphs: Seq<Glyph>, spans: Seq<SpanModel>, max_width: nat)
    ensures
        lines_text(layout_lines(glyphs, spans, max_width, false), false) == plain_text(spans),
{
    layout_lines_laws(glyphs, spans, max_width, false);
    lemma_expand_spans_shown(spans);
}

/// Every span that is not a break marker has text, and no newline in it:
/// newline expansion leaves such spans as they are.
pub open spec fn single_line_spans(v: Seq<SpanModel>) -> bool {
    forall|i: int|
        0 <= i < v.len() && !(#[trigger] v[i]).is_newline ==> v[i].text.len() > 0 && !v[i].text.contains('\n')
}

proof fn lemma_expand_text_no_newline(s: SpanModel, t: Seq<char>, frag: Seq<char>)
    requires
        !t.contains('\n'),
    ensures
        expand_text(s, t, frag) == text_piece(s, frag + t),
    decreases t.len(),
{
    if t.len() == 0 {
        assert(frag + t =~= frag);
    } else {
        assert(t[0] != '\n') by {
            assert(t.contains(t[0]) || t[0] != '\n');
        }
        let u = t.drop_first();
        assert(!u.contains('\n')) by {
            if u.contains('\n') {
                let j = choose|j: int| 0 <= j < u.len() && u[j] == '\n';
                assert(t[j + 1] == '\n');
            }
        }
        lemma_expand_text_no_newline(s, u, frag.push(t[0]));
        assert(frag.push(t[0]) + u =~= frag + t);
    }
}

proof fn lemma_expand_keeps_shown(v: Seq<SpanModel>, use_ruby: bool)
    requires
        single_line_spans(v),
    ensures
        shown_text(expand_spans(v), use_ruby) == shown_text(v, use_ruby),
    decreases v.len(),
{
    if v.len() > 0 {
        let s = v.last();
        assert(single_line_spans(v.drop_last())) by {
            assert forall|i: int| 0 <= i < v.drop_last().len() && !(#[trigger] v.drop_last()[i]).is_newline implies v.drop_last()[i].text.len() > 0
                && !v.drop_last()[i].text.contains('\n') by {
                assert(v.drop_last()[i] == v[i]);
            }
        }
        lemma_expand_keeps_shown(v.drop_last(), use_ruby);
        lemma_shown_concat(expand_spans(v.drop_last()), expand_span(s), use_ruby);
        assert(v[v.len() - 1] == s);
        if s.is_newline {
            lemma_shown_front(break_marker(s), Seq::empty(), use_ruby);
            assert(seq![break_marker(s)] + Seq::<SpanModel>::empty() =~= seq![break_marker(s)]);
            assert(shown_text(Seq::<SpanModel>::empty(), use_ruby) =~= Seq::<char>::empty());
            assert(shown_text(v, use_ruby) =~= shown_text(v.drop_last(), use_ruby) + shown_text(expand_span(s), use_ruby));
        } else {
            lemma_expand_text_no_newline(s, s.text, Seq::empty());
            assert(Seq::<char>::empty() + s.text =~= s.text);
            assert((SpanModel { text: s.text, is_newline: false, ..s }) == s);
            lemma_shown_front(s, Seq::empty(), use_ruby);
            assert(seq![s] + Seq::<SpanModel>::empty() =~= seq![s]);
            assert(shown_text(Seq::<SpanModel>::empty(), use_ruby) =~= Seq::<char>::empty());
            assert(shown_text(v, use_ruby) =~= shown_text(v.drop_last(), use_ruby) + shown_text(expand_span(s), use_ruby));
        }
    }
}

/// In either mode, when no span needs newline expansion, the lines show
/// exactly the text of the input spans, break markers left out.
pub proof fn layout_keeps_shown_text(glyphs: Seq<Glyph>, spans: Seq<SpanModel>, max_width: nat, use_ruby: bool)
    requires
        single_line_spans(spans),
    ensures
        lines_text(layout_lines(glyphs, spans, max_width, use_ruby), use_ruby) == shown_text(spans, use_ruby),
{
    layout_lines_laws(glyphs, spans, max_width, use_ruby);
    lemma_expand_keeps_shown(spans, use_ruby);
}

/// Two results that both meet the contract of `layout_text_binary` for the
/// same font and arguments are the same layout: nothing else feeds into it.
pub proof fn layout_is_deterministic(
    glyphs: Seq<Glyph>,
    line_height: u32,
    spans: Seq<SpanModel>,
    max_width: u32,
    use_ruby: bool,
    r1: Result<TextLayout, LayoutError>,
    r2: Result<TextLayout, LayoutError>,
)
    requires
        layout_outcome(glyphs, line_height, spans, max_width, use_ruby, r1),
        layout_outcome(glyphs, line_height, spans, max_width, use_ruby, r2),
    ensures
        r1 is Ok <==> r2 is Ok,
        r1 is Err ==> r1 == r2,
        r1 is Ok ==> lines_view(r1->Ok_0.lines@) == lines_view(r2->Ok_0.lines@)
            && r1->Ok_0.total_height == r2->Ok_0.total_height
            && r1->Ok_0.scroll_offset == r2->Ok_0.scroll_offset,
{
}

} // verus!
