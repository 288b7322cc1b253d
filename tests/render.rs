use cardbrick::fit::FitSearch;
use cardbrick::font::{FontManager, Glyph, LayoutError};
use cardbrick::span::TextSpan;

fn font() -> FontManager {
    let mut fm = FontManager::new(20);
    for c in "abcdef ".chars() {
        fm.add_glyph(Glyph { ch: c, regular: 10, bold: 12, italic: 10, bold_italic: 12 });
    }
    fm
}

fn span(t: &str, bold: bool) -> TextSpan {
    TextSpan { text: t.to_string(), is_bold: bold, ..TextSpan::default() }
}

#[test]
fn items_follow_each_other_on_a_line() {
    let fm = font();
    let layout = fm.layout_text_binary(&[span("ab", false), span("cd", true), span("ef", false)], 1000, false).unwrap();
    let items = fm.draw_plan(&layout, 5, 7, 100, false).unwrap();
    let got: Vec<(String, i64, i64, bool)> = items.iter().map(|d| (d.text.clone(), d.x, d.y, d.is_bold)).collect();
    assert_eq!(
        got,
        vec![
            ("ab".to_string(), 5, 7, false),
            ("cd".to_string(), 25, 7, true),
            ("ef".to_string(), 49, 7, false)
        ]
    );
}

#[test]
fn lines_outside_the_viewport_are_skipped() {
    let fm = font();
    // Six lines of one character, each 20 px high.
    let layout = fm.layout_text_binary(&[span("abcdef", false)], 10, false).unwrap();
    assert_eq!(layout.lines.len(), 6);
    let mut scrolled = layout;
    scrolled.scroll_offset = 30;
    // Tops at -30, -10, 10, 30, 50, 70; the viewport is 50 high.
    let items = fm.draw_plan(&scrolled, 0, 0, 50, false).unwrap();
    let got: Vec<(String, i64)> = items.iter().map(|d| (d.text.clone(), d.y)).collect();
    assert_eq!(got, vec![("b".to_string(), -10), ("c".to_string(), 10), ("d".to_string(), 30)]);
}

#[test]
fn unmeasurable_visible_text_fails() {
    let fm = font();
    let mut layout = fm.layout_text_binary(&[span("ab", false)], 100, false).unwrap();
    layout.lines[0][0].text = "xyz".to_string();
    assert!(matches!(fm.draw_plan(&layout, 0, 0, 100, false), Err(LayoutError::MeasurementFailure)));
    // The same line scrolled out of view is not measured.
    layout.scroll_offset = 500;
    assert!(fm.draw_plan(&layout, 0, 0, 100, false).unwrap().is_empty());
}

#[test]
fn fit_search_finds_largest_fitting_size() {
    let mut search = FitSearch::new(8, 40);
    let mut trials = 0;
    while let Some(size) = search.next_trial() {
        search.record(size <= 20);
        trials += 1;
    }
    assert_eq!(search.best, 20);
    assert!(trials <= 6);
}

#[test]
fn fit_search_falls_back_to_smallest() {
    let mut search = FitSearch::new(0, 12);
    while let Some(_) = search.next_trial() {
        search.record(false);
    }
    assert_eq!(search.best, 0);
}

#[test]
fn fit_search_matches_threshold_on_every_range() {
    for t in 0u16..30 {
        for (lo, hi) in [(0u16, 25u16), (5, 12), (10, 10), (20, 29)] {
            let mut search = FitSearch::new(lo, hi);
            while let Some(size) = search.next_trial() {
                search.record(size <= t);
            }
            let expected = if t < lo { lo } else if t > hi { hi } else { t };
            assert_eq!(search.best, expected, "t={} range={}..={}", t, lo, hi);
        }
    }
}
