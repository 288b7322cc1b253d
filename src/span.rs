//! The styled text span, the unit that the layout engine consumes.
use vstd::prelude::*;

verus! {

/// A run of text with one style, possibly a ruby base or a break marker.
#[derive(Debug, Clone, Default)]
pub struct TextSpan {
    pub text: String,
    pub new_text_block: bool,
    pub is_bold: bool,
    pub is_italic: bool,
    pub is_ruby_base: bool,
    pub ruby_text: Option<String>,
    pub is_newline: bool,
}

/// What a span holds, with its strings seen as character sequences.
pub struct SpanModel {
    pub text: Seq<char>,
    pub new_text_block: bool,
    pub is_bold: bool,
    pub is_italic: bool,
    pub is_ruby_base: bool,
    pub ruby_text: Option<Seq<char>>,
    pub is_newline: bool,
}

impl SpanModel {
    /// The text shown for this span: the ruby text when ruby mode is on and
    /// there is one, else the base text.
    pub open spec fn display(self, use_ruby: bool) -> Seq<char> {
        if use_ruby {
            match self.ruby_text {
                Some(r) => r,
                None => self.text,
            }
        } else {
            self.text
        }
    }
}

pub open spec fn opt_string_view(o: Option<String>) -> Option<Seq<char>> {
    match o {
        Some(s) => Some(s@),
        None => None,
    }
}

impl View for TextSpan {
    type V = SpanModel;

    open spec fn view(&self) -> SpanModel {
        SpanModel {
            text: self.text@,
            new_text_block: self.new_text_block,
            is_bold: self.is_bold,
            is_italic: self.is_italic,
            is_ruby_base: self.is_ruby_base,
            ruby_text: opt_string_view(self.ruby_text),
            is_newline: self.is_newline,
        }
    }
}

/// The models of a sequence of spans.
pub open spec fn spans_view(v: Seq<TextSpan>) -> Seq<SpanModel> {
    v.map_values(|s: TextSpan| s@)
}

pub fn copy_opt_string(o: &Option<String>) -> (r: Option<String>)
    ensures
        opt_string_view(r) == opt_string_view(*o),
{
    match o {
        Some(s) => Some(s.clone()),
        None => None,
    }
}

impl TextSpan {
    /// The text to show: the ruby text in ruby mode when the span has one,
    /// otherwise the base text.
    pub fn text_to_use(&self, use_ruby: bool) -> (r: &str)
        ensures
            r@ == self@.display(use_ruby),
    {
        if use_ruby {
            match &self.ruby_text {
                Some(r) => r.as_str(),
                None => self.text.as_str(),
            }
        } else {
            self.text.as_str()
        }
    }

    /// A span equal to this one.
    pub fn duplicate(&self) -> (r: TextSpan)
        ensures
            r@ == self@,
    {
        TextSpan {
            text: self.text.clone(),
            new_text_block: self.new_text_block,
            is_bold: self.is_bold,
            is_italic: self.is_italic,
            is_ruby_base: self.is_ruby_base,
            ruby_text: copy_opt_string(&self.ruby_text),
            is_newline: self.is_newline,
        }
    }
}

/// The characters of a string, in order.
pub fn chars_of(s: &str) -> (r: Vec<char>)
    ensures
        r@ == s@,
{
    let mut out: Vec<char> = Vec::new();
    for c in it: s.chars()
        invariant
            out@ == it.seq().subrange(0, it.index() as int),
    {
        out.push(c);
    }
    out
}

} // verus!
