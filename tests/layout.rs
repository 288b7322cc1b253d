use cardbrick::font::{FontManager, Glyph, LayoutError};
use cardbrick::layout::{expand_newlines, TextLayout};
use cardbrick::span::TextSpan;

const LINE_HEIGHT: u32 = 19;

fn add(fm: &mut FontManager, ch: char, w: u32) {
    fm.add_glyph(Glyph { ch, regular: w, bold: w + 1, italic: w, bold_italic: w + 2 });
}

/// A proportional test font: capitals 10 px, narrow letters and punctuation
/// 3 px, space 8 px, other ASCII 9 px, kana and kanji 16 px.
fn setup_font_manager() -> FontManager {
    let mut fm = FontManager::new(LINE_HEIGHT);
    for b in 32u8..127 {
        let c = b as char;
        let w = if c == ' ' {
            8
        } else if "iljt.,'!|:;".contains(c) {
            3
        } else if c.is_ascii_uppercase() {
            10
        } else {
            9
        };
        add(&mut fm, c, w);
    }
    for c in "これは長い日本の文章です。度たく".chars() {
        add(&mut fm, c, 16);
    }
    fm
}

fn plain(text: &str) -> TextSpan {
    TextSpan {
        text: text.to_string(),
        is_bold: false,
        is_italic: false,
        is_newline: false,
        is_ruby_base: false,
        ruby_text: None,
        new_text_block: false,
    }
}

fn shown(layout: &TextLayout, use_ruby: bool) -> Vec<String> {
    layout
        .lines
        .iter()
        .map(|l| l.iter().map(|s| s.text_to_use(use_ruby).to_string()).collect::<String>())
        .collect()
}

fn line_width(fm: &FontManager, line: &[TextSpan], use_ruby: bool) -> u32 {
    line.iter()
        .map(|s| fm.size_of_text_with_style(s.text_to_use(use_ruby), s.is_bold, s.is_italic).unwrap().0)
        .sum()
}

#[test]
fn test_simple_ascii_wrapping() {
    let fm = setup_font_manager();
    let spans = vec![TextSpan {
        text: "This is a simple test.".to_string(),
        is_bold: false, is_italic: false, is_newline: false, is_ruby_base: false, ruby_text: None, new_text_block: false,
    }];
    let layout = fm.layout_text_binary(&spans, 80, false).unwrap();
    println!("{:?}", layout.lines);
    assert_eq!(layout.lines.len(), 2, "Text should wrap to 2 lines");
    assert_eq!(layout.lines[0][0].text, "This is a ");
    assert_eq!(layout.lines[1][0].text, "simple test.");
}

#[test]
fn test_japanese_wrapping_no_panic() {
    let fm = setup_font_manager();
    let spans = vec![TextSpan {
        text: "これは長い日本の文章です。".to_string(),
        is_bold: false, is_italic: false, is_newline: false, is_ruby_base: false, ruby_text: None, new_text_block: false,
    }];
    // A narrow width to force wrapping
    let layout = fm.layout_text_binary(&spans, 100, false).unwrap();
    assert!(layout.lines.len() > 1, "Japanese text should wrap");
}

#[test]
fn test_long_word_does_not_inf_loop() {
    let fm = setup_font_manager();
    let spans = vec![TextSpan {
        text: "Supercalifragilisticexpialidocious".to_string(),
        is_bold: false, is_italic: false, is_newline: false, is_ruby_base: false, ruby_text: None, new_text_block: false,
    }];
    // Use a width smaller than the first character
    let layout = fm.layout_text_binary(&spans, 5, false).unwrap();
    // The first line should contain just the first character, and the rest should wrap.
    assert!(layout.lines.len() > 1, "Very long word should wrap to multiple lines");
    assert_eq!(layout.lines[0][0].text, "S");
}

#[test]
fn narrow_ascii_lines_fit_and_keep_text() {
    let fm = setup_font_manager();
    let layout = fm.layout_text_binary(&[plain("This is a simple test.")], 80, false).unwrap();
    assert!(layout.lines.len() >= 2);
    assert_eq!(shown(&layout, false).concat(), "This is a simple test.");
    for line in &layout.lines {
        assert!(line_width(&fm, line, false) <= 80);
    }
    assert_eq!(layout.total_height, LINE_HEIGHT as i32 * layout.lines.len() as i32);
    assert_eq!(layout.scroll_offset, 0);
}

#[test]
fn japanese_splits_between_characters() {
    let fm = setup_font_manager();
    let layout = fm.layout_text_binary(&[plain("これは長い日本の文章です。")], 100, false).unwrap();
    // Six characters of 16 px fit in 100 px.
    assert_eq!(shown(&layout, false), vec!["これは長い日", "本の文章です", "。"]);
}

#[test]
fn over_wide_characters_stand_alone() {
    let fm = setup_font_manager();
    let word = "Supercalifragilisticexpialidocious";
    let layout = fm.layout_text_binary(&[plain(word)], 5, false).unwrap();
    let lines = shown(&layout, false);
    assert_eq!(lines[0], "S");
    assert_eq!(lines.concat(), word);
    for (line, text) in layout.lines.iter().zip(lines.iter()) {
        // Either it fits, or it is one character wider than the whole width.
        assert!(line_width(&fm, line, false) <= 5 || (line.len() == 1 && text.chars().count() == 1));
    }
    // Each character is too wide for a line of its own except the 3 px ones,
    // which pair up with nothing wider: one character per line.
    assert_eq!(lines.len(), word.chars().count());
}

#[test]
fn hard_break_gives_two_lines() {
    let fm = setup_font_manager();
    let mut newline = plain("");
    newline.is_newline = true;
    let layout = fm.layout_text_binary(&[plain("A"), newline, plain("B")], 1000, false).unwrap();
    assert_eq!(layout.lines.len(), 2);
    assert_eq!(shown(&layout, false), vec!["A", "B"]);
    assert_eq!(layout.lines[0].len(), 1);
    assert_eq!(layout.lines[1].len(), 1);
}

#[test]
fn embedded_newlines_break_lines() {
    let fm = setup_font_manager();
    let layout = fm.layout_text_binary(&[plain("ab\n\ncd\n")], 1000, false).unwrap();
    assert_eq!(shown(&layout, false), vec!["ab", "", "cd"]);
}

#[test]
fn expansion_splits_at_newlines() {
    let q = expand_newlines(&[plain("ab\n\ncd")]);
    let parts: Vec<(String, bool)> = q.iter().map(|s| (s.text.clone(), s.is_newline)).collect();
    assert_eq!(
        parts,
        vec![
            ("ab".to_string(), false),
            (String::new(), true),
            (String::new(), true),
            ("cd".to_string(), false)
        ]
    );
}

#[test]
fn ruby_text_replaces_base_text() {
    let fm = setup_font_manager();
    let mut span = plain("度");
    span.is_ruby_base = true;
    span.ruby_text = Some("たく".to_string());
    let with_ruby = fm.layout_text_binary(&[span.clone()], 1000, true).unwrap();
    assert_eq!(shown(&with_ruby, true), vec!["たく"]);
    assert_eq!(line_width(&fm, &with_ruby.lines[0], true), 32);
    let without = fm.layout_text_binary(&[span], 1000, false).unwrap();
    assert_eq!(shown(&without, false), vec!["度"]);
    assert_eq!(line_width(&fm, &without.lines[0], false), 16);
}

#[test]
fn ruby_text_is_split_when_too_wide() {
    let fm = setup_font_manager();
    let mut span = plain("度");
    span.ruby_text = Some("たくたく".to_string());
    let layout = fm.layout_text_binary(&[span], 40, true).unwrap();
    assert_eq!(shown(&layout, true), vec!["たく", "たく"]);
    // The first part keeps the base text; the rest has none.
    assert_eq!(layout.lines[0][0].text, "度");
    assert_eq!(layout.lines[1][0].text, "");
}

#[test]
fn empty_input_gives_one_empty_line() {
    let fm = setup_font_manager();
    let layout = fm.layout_text_binary(&[], 100, false).unwrap();
    assert_eq!(layout.lines.len(), 1);
    assert!(layout.lines[0].is_empty());
    assert_eq!(layout.total_height, LINE_HEIGHT as i32);
}

#[test]
fn block_start_flushes_the_line() {
    let fm = setup_font_manager();
    let mut heading = plain("Title");
    heading.new_text_block = true;
    let layout = fm.layout_text_binary(&[plain("ab"), heading, plain("cd")], 1000, false).unwrap();
    assert_eq!(shown(&layout, false), vec!["ab", "Titlecd"]);
}

#[test]
fn bold_text_is_measured_bold() {
    let fm = setup_font_manager();
    let mut bold = plain("abcd");
    bold.is_bold = true;
    // Four 10 px bold glyphs do not fit in 39 px; plain ones (9 px) do.
    let layout = fm.layout_text_binary(&[bold], 39, false).unwrap();
    assert_eq!(shown(&layout, false), vec!["abc", "d"]);
    let layout = fm.layout_text_binary(&[plain("abcd")], 39, false).unwrap();
    assert_eq!(shown(&layout, false), vec!["abcd"]);
}

#[test]
fn spans_share_a_line_until_full() {
    let fm = setup_font_manager();
    let layout = fm.layout_text_binary(&[plain("ab"), plain("cd"), plain("ef")], 40, false).unwrap();
    assert_eq!(shown(&layout, false), vec!["abcd", "ef"]);
    assert_eq!(layout.lines[0].len(), 2);
}

#[test]
fn missing_glyph_is_a_measurement_failure() {
    let fm = setup_font_manager();
    let r = fm.layout_text_binary(&[plain("a\u{263A}")], 100, false);
    assert!(matches!(r, Err(LayoutError::MeasurementFailure)));
    assert_eq!(fm.size_of_text("\u{263A}"), Err(LayoutError::MeasurementFailure));
}

#[test]
fn huge_line_height_overflows() {
    let mut fm = setup_font_manager();
    fm.line_height = u32::MAX;
    let r = fm.layout_text_binary(&[plain("a")], 100, false);
    assert!(matches!(r, Err(LayoutError::HeightOverflow)));
}

#[test]
fn layout_twice_gives_the_same_lines() {
    let fm = setup_font_manager();
    let spans = [plain("This is a simple test."), plain("これは長い日本の文章です。")];
    let a = fm.layout_text_binary(&spans, 70, false).unwrap();
    let b = fm.layout_text_binary(&spans, 70, false).unwrap();
    assert_eq!(shown(&a, false), shown(&b, false));
    assert_eq!(a.total_height, b.total_height);
}

#[test]
fn measuring_sums_advances() {
    let fm = setup_font_manager();
    assert_eq!(fm.size_of_text("Ti a"), Ok((10 + 3 + 8 + 9, LINE_HEIGHT)));
    assert_eq!(fm.size_of_text_with_style("ab", true, true), Ok((22, LINE_HEIGHT)));
    assert_eq!(fm.size_of_text(""), Ok((0, LINE_HEIGHT)));
}

#[test]
fn split_index_is_longest_fitting_prefix() {
    let fm = setup_font_manager();
    let t: Vec<char> = "abcdef".chars().collect();
    assert_eq!(fm.find_split_index(&t, false, false, 0), 0);
    assert_eq!(fm.find_split_index(&t, false, false, 17), 1);
    assert_eq!(fm.find_split_index(&t, false, false, 18), 2);
    assert_eq!(fm.find_split_index(&t, false, false, 1000), 6);
    assert_eq!(fm.find_split_index(&t, true, false, 20), 2);
}

#[test]
fn first_glyph_for_a_character_wins() {
    let mut fm = FontManager::new(10);
    add(&mut fm, 'x', 5);
    add(&mut fm, 'x', 7);
    assert_eq!(fm.glyph('x').unwrap().regular, 5);
    assert!(fm.glyph('y').is_none());
}

#[test]
fn break_marker_span_stays_a_break() {
    let mut marker = plain("");
    marker.is_newline = true;
    let q = expand_newlines(&[plain("A"), marker, plain("B")]);
    let flags: Vec<bool> = q.iter().map(|s| s.is_newline).collect();
    assert_eq!(flags, vec![false, true, false]);
}
