//! From a markup tree to styled spans: headings and `<b>` make bold text,
//! `<i>` italic, `<ruby>` a ruby base with its reading, and block elements
//! end with a line break.
use vstd::prelude::*;
use crate::span::{TextSpan, SpanModel, spans_view, opt_string_view, copy_opt_string, chars_of};

verus! {

/// A node of a parsed markup document.
pub enum MarkupNode {
    Element { name: String, children: Vec<MarkupNode> },
    Text(String),
    Comment,
}

/// What an element's name means to the walk.
#[derive(Debug, Clone, Copy, PartialEq, Eq, Structural)]
pub enum TagKind {
    Heading,
    LineBreak,
    Bold,
    Italic,
    ClosedRule,
    Ruby,
    RubyBase,
    RubyText,
    Paragraph,
    Rule,
    ListItem,
    List,
    Other,
}

pub open spec fn tag_kind(name: Seq<char>) -> TagKind {
    if name == "h1"@ || name == "h2"@ || name == "h3"@ || name == "h4"@ || name == "h5"@ || name == "h6"@ {
        TagKind::Heading
    } else if name == "br"@ {
        TagKind::LineBreak
    } else if name == "b"@ {
        TagKind::Bold
    } else if name == "i"@ {
        TagKind::Italic
    } else if name == "hr/"@ {
        TagKind::ClosedRule
    } else if name == "ruby"@ {
        TagKind::Ruby
    } else if name == "rb"@ {
        TagKind::RubyBase
    } else if name == "rt"@ {
        TagKind::RubyText
    } else if name == "p"@ {
        TagKind::Paragraph
    } else if name == "hr"@ {
        TagKind::Rule
    } else if name == "li"@ {
        TagKind::ListItem
    } else if name == "ul"@ {
        TagKind::List
    } else {
        TagKind::Other
    }
}

fn is_named(name: &String, lit: &str) -> (r: bool)
    ensures
        r == (name@ == lit@),
{
    let l = String::from_str(lit);
    *name == l
}

/// The kind of the element named `name`.
pub fn kind_of(name: &String) -> (r: TagKind)
    ensures
        r == tag_kind(name@),
{
    if is_named(name, "h1") || is_named(name, "h2") || is_named(name, "h3") || is_named(name, "h4") || is_named(name, "h5")
        || is_named(name, "h6") {
        TagKind::Heading
    } else if is_named(name, "br") {
        TagKind::LineBreak
    } else if is_named(name, "b") {
        TagKind::Bold
    } else if is_named(name, "i") {
        TagKind::Italic
    } else if is_named(name, "hr/") {
        TagKind::ClosedRule
    } else if is_named(name, "ruby") {
        TagKind::Ruby
    } else if is_named(name, "rb") {
        TagKind::RubyBase
    } else if is_named(name, "rt") {
        TagKind::RubyText
    } else if is_named(name, "p") {
        TagKind::Paragraph
    } else if is_named(name, "hr") {
        TagKind::Rule
    } else if is_named(name, "li") {
        TagKind::ListItem
    } else if is_named(name, "ul") {
        TagKind::List
    } else {
        TagKind::Other
    }
}

/// The white-space characters of Unicode.
pub open spec fn is_white_space(c: char) -> bool {
    ('\u{9}' <= c && c <= '\u{d}') || c == ' ' || c == '\u{85}' || c == '\u{a0}' || c == '\u{1680}' || ('\u{2000}' <= c && c
        <= '\u{200a}') || c == '\u{2028}' || c == '\u{2029}' || c == '\u{202f}' || c == '\u{205f}' || c == '\u{3000}'
}

pub open spec fn blank(t: Seq<char>) -> bool {
    forall|i: int| 0 <= i < t.len() ==> is_white_space(#[trigger] t[i])
}

fn white_space(c: char) -> (r: bool)
    ensures
        r == is_white_space(c),
{
    ('\u{9}' <= c && c <= '\u{d}') || c == ' ' || c == '\u{85}' || c == '\u{a0}' || c == '\u{1680}' || ('\u{2000}' <= c && c
        <= '\u{200a}') || c == '\u{2028}' || c == '\u{2029}' || c == '\u{202f}' || c == '\u{205f}' || c == '\u{3000}'
}

fn is_blank(s: &String) -> (r: bool)
    ensures
        r == blank(s@),
{
    let t = chars_of(s.as_str());
    let mut i: usize = 0;
    while i < t.len()
        invariant
            t@ == s@,
            i <= t@.len(),
            forall|j: int| 0 <= j < i ==> is_white_space(#[trigger] t@[j]),
        decreases t.len() - i,
    {
        if !white_space(t[i]) {
            return false;
        }
        i = i + 1;
    }
    true
}

/// The style that an element of kind `k` gives its content.
pub open spec fn styled(fmt: SpanModel, k: TagKind) -> SpanModel {
    match k {
        TagKind::Heading => SpanModel { is_bold: true, new_text_block: true, ..fmt },
        TagKind::LineBreak => SpanModel { new_text_block: true, ..fmt },
        TagKind::Bold => SpanModel { is_bold: true, ..fmt },
        TagKind::Italic => SpanModel { is_italic: true, ..fmt },
        TagKind::ClosedRule => SpanModel { new_text_block: true, ..fmt },
        TagKind::RubyBase => SpanModel { is_ruby_base: true, ..fmt },
        _ => fmt,
    }
}

/// Elements that end with a line break.
pub open spec fn ends_block(k: TagKind) -> bool {
    k == TagKind::Heading || k == TagKind::Paragraph || k == TagKind::Rule || k == TagKind::ListItem || k
        == TagKind::ClosedRule || k == TagKind::List
}

/// A span of style `fmt` holding a newline.
pub open spec fn newline_span(fmt: SpanModel) -> SpanModel {
    SpanModel { text: seq!['\n'], ..fmt }
}

/// The texts of the spans, one after the other.
pub open spec fn joined_text(v: Seq<SpanModel>) -> Seq<char>
    decreases v.len(),
{
    if v.len() == 0 {
        Seq::empty()
    } else {
        joined_text(v.drop_last()) + v.last().text
    }
}

/// The spans that `node` adds to `acc` in style `fmt`.
pub open spec fn walk_node(node: MarkupNode, fmt: SpanModel, acc: Seq<SpanModel>) -> Seq<SpanModel>
    decreases node, 0nat,
{
    match node {
        MarkupNode::Comment => acc,
        MarkupNode::Text(t) => if blank(t@) {
            acc
        } else {
            acc.push(SpanModel { text: t@, ..fmt })
        },
        MarkupNode::Element { name, children } => {
            let k = tag_kind(name@);
            let nf = styled(fmt, k);
            let acc1 = if k == TagKind::LineBreak || k == TagKind::ClosedRule {
                acc.push(newline_span(fmt))
            } else {
                acc
            };
            let acc2 = if k == TagKind::Ruby {
                let (base, ruby) = ruby_parts(children@, nf, Seq::empty(), None);
                if base.len() > 0 {
                    acc1.push(
                        SpanModel {
                            text: joined_text(base),
                            is_bold: nf.is_bold,
                            is_italic: nf.is_italic,
                            is_ruby_base: true,
                            ruby_text: ruby,
                            new_text_block: false,
                            is_newline: false,
                        },
                    )
                } else {
                    acc1
                }
            } else if k == TagKind::LineBreak {
                acc1
            } else {
                walk_children(children@, nf, acc1)
            };
            if ends_block(k) && (acc2.len() == 0 || acc2.last().text != seq!['\n']) {
                acc2.push(newline_span(fmt))
            } else {
                acc2
            }
        },
    }
}

/// The spans that the nodes `cs`, in order, add to `acc` in style `fmt`.
pub open spec fn walk_children(cs: Seq<MarkupNode>, fmt: SpanModel, acc: Seq<SpanModel>) -> Seq<SpanModel>
    decreases cs, cs.len(),
{
    if cs.len() == 0 {
        acc
    } else {
        walk_children(cs.drop_first(), fmt, walk_node(cs[0], fmt, acc))
    }
}

/// The base spans and the reading gathered from the children of a `<ruby>`:
/// `<rb>` content and bare text are base, `<rt>` content the reading (the
/// last one wins), anything else is left out.
pub open spec fn ruby_parts(cs: Seq<MarkupNode>, nf: SpanModel, base: Seq<SpanModel>, ruby: Option<Seq<char>>) -> (Seq<SpanModel>, Option<Seq<char>>)
    decreases cs, cs.len(),
{
    if cs.len() == 0 {
        (base, ruby)
    } else {
        let (base2, ruby2) = match cs[0] {
            MarkupNode::Element { name, children } => if tag_kind(name@) == TagKind::RubyBase {
                (base + walk_children(children@, nf, Seq::empty()), ruby)
            } else if tag_kind(name@) == TagKind::RubyText {
                (base, Some(joined_text(walk_children(children@, nf, Seq::empty()))))
            } else {
                (base, ruby)
            },
            MarkupNode::Text(t) => (base.push(SpanModel { text: t@, ..nf }), ruby),
            MarkupNode::Comment => (base, ruby),
        };
        ruby_parts(cs.drop_first(), nf, base2, ruby2)
    }
}

/// The style of text outside any element.
pub open spec fn plain_style() -> SpanModel {
    SpanModel {
        text: Seq::empty(),
        new_text_block: false,
        is_bold: false,
        is_italic: false,
        is_ruby_base: false,
        ruby_text: None,
        is_newline: false,
    }
}

fn span_with_text(text: String, fmt: &TextSpan) -> (r: TextSpan)
    ensures
        r@ == (SpanModel { text: text@, ..fmt@ }),
{
    TextSpan {
        text,
        new_text_block: fmt.new_text_block,
        is_bold: fmt.is_bold,
        is_italic: fmt.is_italic,
        is_ruby_base: fmt.is_ruby_base,
        ruby_text: copy_opt_string(&fmt.ruby_text),
        is_newline: fmt.is_newline,
    }
}

fn newline_in(fmt: &TextSpan) -> (r: TextSpan)
    ensures
        r@ == newline_span(fmt@),
{
    let nl = String::from_str("\n");
    proof {
        reveal_strlit("\n");
    }
    assert(nl@ =~= seq!['\n']);
    span_with_text(nl, fmt)
}

fn style_for(fmt: &TextSpan, k: TagKind) -> (r: TextSpan)
    ensures
        r@ == styled(fmt@, k),
{
    let mut nf = fmt.duplicate();
    match k {
        TagKind::Heading => {
            nf.is_bold = true;
            nf.new_text_block = true;
        },
        TagKind::LineBreak => {
            nf.new_text_block = true;
        },
        TagKind::Bold => {
            nf.is_bold = true;
        },
        TagKind::Italic => {
            nf.is_italic = true;
        },
        TagKind::ClosedRule => {
            nf.new_text_block = true;
        },
        TagKind::RubyBase => {
            nf.is_ruby_base = true;
        },
        _ => {},
    }
    nf
}

fn join_texts(v: &Vec<TextSpan>) -> (r: String)
    ensures
        r@ == joined_text(spans_view(v@)),
{
    let mut out = String::new();
    let mut i: usize = 0;
    assert(spans_view(v@).subrange(0, 0) =~= Seq::<SpanModel>::empty());
    while i < v.len()
        invariant
            i <= v@.len(),
            out@ == joined_text(spans_view(v@).subrange(0, i as int)),
        decreases v.len() - i,
    {
        assert(spans_view(v@).subrange(0, i + 1).drop_last() =~= spans_view(v@).subrange(0, i as int));
        out.append(v[i].text.as_str());
        i = i + 1;
    }
    assert(spans_view(v@).subrange(0, v@.len() as int) =~= spans_view(v@));
    out
}

fn ends_with_newline(spans: &Vec<TextSpan>) -> (r: bool)
    ensures
        r == (spans@.len() > 0 && spans@.last()@.text == seq!['\n']),
{
    if spans.len() == 0 {
        return false;
    }
    let r = is_named(&spans[spans.len() - 1].text, "\n");
    proof {
        reveal_strlit("\n");
    }
    assert("\n"@ =~= seq!['\n']);
    r
}

/// Adds to `spans` the spans of `node` in style `fmt`.
pub fn process_node(node: &MarkupNode, spans: &mut Vec<TextSpan>, fmt: &TextSpan)
    ensures
        spans_view(final(spans)@) == walk_node(*node, fmt@, spans_view(old(spans)@)),
    decreases node, 0nat,
{
    let ghost before = spans_view(spans@);
    match node {
        MarkupNode::Comment => {},
        MarkupNode::Text(t) => {
            if !is_blank(t) {
                let s = span_with_text(t.clone(), fmt);
                spans.push(s);
                assert(spans_view(spans@) =~= before.push(s@));
            }
        },
        MarkupNode::Element { name, children } => {
            let k = kind_of(name);
            let nf = style_for(fmt, k);
            if matches!(k, TagKind::LineBreak) || matches!(k, TagKind::ClosedRule) {
                let s = newline_in(fmt);
                spans.push(s);
                assert(spans_view(spans@) =~= before.push(s@));
            }
            let ghost acc1 = spans_view(spans@);
            if matches!(k, TagKind::Ruby) {
                let mut base: Vec<TextSpan> = Vec::new();
                let mut ruby: Option<String> = None;
                assert(spans_view(base@) =~= Seq::<SpanModel>::empty());
                ruby_scan(children, &nf, &mut base, &mut ruby);
                if base.len() > 0 {
                    let s = TextSpan {
                        text: join_texts(&base),
                        is_bold: nf.is_bold,
                        is_italic: nf.is_italic,
                        is_ruby_base: true,
                        ruby_text: ruby,
                        new_text_block: false,
                        is_newline: false,
                    };
                    spans.push(s);
                    assert(spans_view(spans@) =~= acc1.push(s@));
                }
            } else if !matches!(k, TagKind::LineBreak) {
                process_children(children, spans, &nf);
            }
            let ghost acc2 = spans_view(spans@);
            let closes = matches!(k, TagKind::Heading) || matches!(k, TagKind::Paragraph) || matches!(k, TagKind::Rule)
                || matches!(k, TagKind::ListItem) || matches!(k, TagKind::ClosedRule) || matches!(k, TagKind::List);
            if closes && !ends_with_newline(spans) {
                let s = newline_in(fmt);
                spans.push(s);
                assert(spans_view(spans@) =~= acc2.push(s@));
            }
        },
    }
}

/// Adds to `spans` the spans of each node of `cs`, in order, in style `fmt`.
pub fn process_children(cs: &Vec<MarkupNode>, spans: &mut Vec<TextSpan>, fmt: &TextSpan)
    ensures
        spans_view(final(spans)@) == walk_children(cs@, fmt@, spans_view(old(spans)@)),
    decreases cs, 1nat,
{
    let ghost target = walk_children(cs@, fmt@, spans_view(spans@));
    let mut i: usize = 0;
    assert(cs@.subrange(0, cs@.len() as int) =~= cs@);
    while i < cs.len()
        invariant
            i <= cs@.len(),
            walk_children(cs@.subrange(i as int, cs@.len() as int), fmt@, spans_view(spans@)) == target,
        decreases cs.len() - i,
    {
        let ghost rest = cs@.subrange(i as int, cs@.len() as int);
        assert(rest.drop_first() =~= cs@.subrange(i + 1, cs@.len() as int));
        assert(rest[0] == cs@[i as int]);
        process_node(&cs[i], spans, fmt);
        i = i + 1;
    }
    assert(cs@.subrange(i as int, cs@.len() as int) =~= Seq::<MarkupNode>::empty());
}

fn ruby_scan(cs: &Vec<MarkupNode>, nf: &TextSpan, base: &mut Vec<TextSpan>, ruby: &mut Option<String>)
    ensures
        (spans_view(final(base)@), opt_string_view(*final(ruby))) == ruby_parts(
            cs@,
            nf@,
            spans_view(old(base)@),
            opt_string_view(*old(ruby)),
        ),
    decreases cs, 1nat,
{
    let ghost target = ruby_parts(cs@, nf@, spans_view(base@), opt_string_view(*ruby));
    let mut i: usize = 0;
    assert(cs@.subrange(0, cs@.len() as int) =~= cs@);
    while i < cs.len()
        invariant
            i <= cs@.len(),
            ruby_parts(cs@.subrange(i as int, cs@.len() as int), nf@, spans_view(base@), opt_string_view(*ruby))
                == target,
        decreases cs.len() - i,
    {
        let ghost rest = cs@.subrange(i as int, cs@.len() as int);
        assert(rest.drop_first() =~= cs@.subrange(i + 1, cs@.len() as int));
        assert(rest[0] == cs@[i as int]);
        let ghost b0 = spans_view(base@);
        match &cs[i] {
            MarkupNode::Element { name, children } => {
                let k = kind_of(name);
                if matches!(k, TagKind::RubyBase) {
                    let mut part: Vec<TextSpan> = Vec::new();
                    assert(spans_view(part@) =~= Seq::<SpanModel>::empty());
                    process_children(children, &mut part, nf);
                    let ghost pv = spans_view(part@);
                    base.append(&mut part);
                    assert(spans_view(base@) =~= b0 + pv);
                } else if matches!(k, TagKind::RubyText) {
                    let mut part: Vec<TextSpan> = Vec::new();
                    assert(spans_view(part@) =~= Seq::<SpanModel>::empty());
                    process_children(children, &mut part, nf);
                    *ruby = Some(join_texts(&part));
                }
            },
            MarkupNode::Text(t) => {
                let s = span_with_text(t.clone(), nf);
                base.push(s);
                assert(spans_view(base@) =~= b0.push(s@));
            },
            MarkupNode::Comment => {},
        }
        i = i + 1;
    }
    assert(cs@.subrange(i as int, cs@.len() as int) =~= Seq::<MarkupNode>::empty());
}

/// The spans of a document's top-level nodes, in plain style to begin with.
pub fn spans_from_markup(nodes: &Vec<MarkupNode>) -> (r: Vec<TextSpan>)
    ensures
        spans_view(r@) == walk_children(nodes@, plain_style(), Seq::empty()),
{
    let fmt = TextSpan {
        text: String::new(),
        new_text_block: false,
        is_bold: false,
        is_italic: false,
        is_ruby_base: false,
        ruby_text: None,
        is_newline: false,
    };
    let mut spans: Vec<TextSpan> = Vec::new();
    assert(spans_view(spans@) =~= Seq::<SpanModel>::empty());
    assert(fmt@ == plain_style());
    process_children(nodes, &mut spans, &fmt);
    spans
}

/// The plain text of a node: its text in document order, with a newline
/// after each `<br>` and each `<p>`.
pub open spec fn node_text(node: MarkupNode) -> Seq<char>
    decreases node, 0nat,
{
    match node {
        MarkupNode::Comment => Seq::empty(),
        MarkupNode::Text(t) => t@,
        MarkupNode::Element { name, children } => children_text(children@) + if name@ == "br"@ || name@ == "p"@ {
            seq!['\n']
        } else {
            Seq::<char>::empty()
        },
    }
}

pub open spec fn children_text(cs: Seq<MarkupNode>) -> Seq<char>
    decreases cs, cs.len(),
{
    if cs.len() == 0 {
        Seq::empty()
    } else {
        node_text(cs[0]) + children_text(cs.drop_first())
    }
}

/// Appends the plain text of `node` to `out`.
pub fn extract_text(node: &MarkupNode, out: &mut String)
    ensures
        final(out)@ == old(out)@ + node_text(*node),
    decreases node, 0nat,
{
    let ghost before = out@;
    match node {
        MarkupNode::Comment => {
            assert(before + Seq::<char>::empty() =~= before);
        },
        MarkupNode::Text(t) => {
            out.append(t.as_str());
        },
        MarkupNode::Element { name, children } => {
            extract_children_text(children, out);
            let ghost mid = out@;
            if is_named(name, "br") || is_named(name, "p") {
                out.append("\n");
                proof {
                    reveal_strlit("\n");
                }
                assert(out@ =~= mid + seq!['\n']);
            } else {
                assert(mid + Seq::<char>::empty() =~= mid);
            }
            assert(out@ =~= before + node_text(*node));
        },
    }
}

fn extract_children_text(cs: &Vec<MarkupNode>, out: &mut String)
    ensures
        final(out)@ == old(out)@ + children_text(cs@),
    decreases cs, 1nat,
{
    let ghost before = out@;
    let mut i: usize = 0;
    assert(cs@.subrange(0, cs@.len() as int) =~= cs@);
    assert(before + Seq::<char>::empty() =~= before);
    while i < cs.len()
        invariant
            i <= cs@.len(),
            out@ + children_text(cs@.subrange(i as int, cs@.len() as int)) == before + children_text(cs@),
        decreases cs.len() - i,
    {
        let ghost rest = cs@.subrange(i as int, cs@.len() as int);
        assert(rest.drop_first() =~= cs@.subrange(i + 1, cs@.len() as int));
        assert(rest[0] == cs@[i as int]);
        let ghost o = out@;
        extract_text(&cs[i], out);
        assert(o + (node_text(cs@[i as int]) + children_text(rest.drop_first()))
            =~= o + node_text(cs@[i as int]) + children_text(rest.drop_first()));
        i = i + 1;
    }
    assert(cs@.subrange(i as int, cs@.len() as int) =~= Seq::<MarkupNode>::empty());
    assert(out@ + Seq::<char>::empty() =~= out@);
}

} // verus!
