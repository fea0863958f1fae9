use game_translator::regions::{
    group_into_paragraphs, line_bounds, pick_ocr_language, RawLine, WordBox,
};

fn line(text: &str, x: i32, y: i32, width: i32, height: i32) -> RawLine {
    RawLine { text: text.to_string(), x, y, width, height }
}

#[test]
fn grouping_merges_close_lines() {
    // Gap between the first two lines is 2, under 0.8 * 20 = 16; the
    // third line sits 38 below the second line's bottom and starts its
    // own paragraph.
    let lines = vec![
        line("first", 10, 0, 100, 20),
        line("second", 10, 22, 120, 20),
        line("third", 10, 80, 90, 20),
    ];
    let regions = group_into_paragraphs(lines);
    assert_eq!(regions.len(), 2);
    assert_eq!(regions[0].text, "first second");
    assert_eq!(regions[0].x, 10);
    assert_eq!(regions[0].y, 0);
    assert_eq!(regions[0].width, 120);
    assert_eq!(regions[0].height, 20);
    assert_eq!(regions[1].text, "third");
    assert_eq!(regions[1].y, 80);
}

#[test]
fn grouping_rejects_overlapping_lines() {
    // The second line starts above the first line's bottom edge: the
    // vertical gap is negative, so the lines do not merge.
    let lines = vec![line("a", 0, 0, 50, 20), line("b", 0, 18, 50, 20)];
    let regions = group_into_paragraphs(lines);
    assert_eq!(regions.len(), 2);
}

#[test]
fn grouping_respects_horizontal_offset() {
    // Vertical gap 2 would merge, but the second line starts 41 to the
    // right, past 2 * 20 = 40.
    let lines = vec![line("a", 0, 0, 50, 20), line("b", 41, 22, 50, 20)];
    let regions = group_into_paragraphs(lines);
    assert_eq!(regions.len(), 2);
}

#[test]
fn grouping_boundary_gap() {
    // Gap of exactly 0.8 * height closes the paragraph; one less merges.
    let merged = group_into_paragraphs(vec![
        line("a", 0, 0, 50, 20),
        line("b", 0, 35, 50, 20),
    ]);
    assert_eq!(merged.len(), 1);
    let split = group_into_paragraphs(vec![
        line("a", 0, 0, 50, 20),
        line("b", 0, 36, 50, 20),
    ]);
    assert_eq!(split.len(), 2);
}

#[test]
fn grouping_empty_input() {
    let regions = group_into_paragraphs(Vec::new());
    assert_eq!(regions.len(), 0);
}

#[test]
fn line_bounds_unions_word_boxes() {
    let words = vec![
        WordBox { x: 10, y: 5, width: 30, height: 18 },
        WordBox { x: 45, y: 6, width: 25, height: 22 },
        WordBox { x: 75, y: 5, width: 40, height: 20 },
    ];
    let (x, y, w, h) = line_bounds(&words).unwrap();
    assert_eq!(x, 10);
    assert_eq!(y, 5);
    assert_eq!(w, 75 + 40 - 10);
    assert_eq!(h, 22);
    assert!(line_bounds(&Vec::new()).is_none());
}

#[test]
fn language_pick_prefers_english_family() {
    let tags = vec!["ja".to_string(), "EN-us".to_string(), "en-GB".to_string()];
    assert_eq!(pick_ocr_language(&tags), Some(1));
    let no_en = vec!["ja".to_string(), "fr-FR".to_string()];
    assert_eq!(pick_ocr_language(&no_en), Some(0));
    let empty: Vec<String> = Vec::new();
    assert_eq!(pick_ocr_language(&empty), None);
}
