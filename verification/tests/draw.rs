use flashcards::draw::{draw_wrapped_text_centered, split_words, Color, LineDraw, MeasuredWord};

const BLACK: Color = Color { r: 0, g: 0, b: 0, a: 255 };

fn words(measured: &[(&str, i32)]) -> Vec<MeasuredWord> {
    measured.iter().map(|(text, width)| MeasuredWord { text: text.to_string(), width: *width }).collect()
}

fn line(text: &str, x: i32, y: i32, font_size: i32) -> LineDraw {
    LineDraw { text: text.to_string(), x, y, font_size, color: BLACK }
}

fn strings(values: &[&str]) -> Vec<String> {
    values.iter().map(|value| value.to_string()).collect()
}

#[test]
fn split_words_on_spaces() {
    assert_eq!(split_words("what is the answer"), strings(&["what", "is", "the", "answer"]));
}

#[test]
fn split_words_drops_white_space_of_any_kind_and_amount() {
    assert_eq!(split_words("  one\t\ttwo\nthree \r\n four  "), strings(&["one", "two", "three", "four"]));
    assert_eq!(split_words("a\u{a0}b\u{2003}c\u{3000}d"), strings(&["a", "b", "c", "d"]));
}

#[test]
fn split_words_of_nothing() {
    assert_eq!(split_words(""), Vec::<String>::new());
    assert_eq!(split_words(" \t\n "), Vec::<String>::new());
}

#[test]
fn split_words_keeps_other_characters() {
    assert_eq!(split_words("na\u{ef}ve caf\u{e9}; x_y-z"), strings(&["na\u{ef}ve", "caf\u{e9};", "x_y-z"]));
    assert_eq!(split_words("word"), strings(&["word"]));
}

#[test]
fn split_words_agrees_with_split_whitespace() {
    let text = " The\u{2028}quick  brown\u{85}fox\u{1680}jumps\u{200a}over\u{b}the\u{c}lazy\u{205f}dog\u{202f}! ";
    let expected: Vec<String> = text.split_whitespace().map(String::from).collect();
    assert_eq!(split_words(text), expected);
    assert_eq!(expected.len(), 10);
}

#[test]
fn no_words_no_lines() {
    assert_eq!(draw_wrapped_text_centered(&Vec::new(), 5, 1000, 40, 20, 920, BLACK), Some(Vec::new()));
}

#[test]
fn words_that_fit_share_a_line() {
    let lines = draw_wrapped_text_centered(&words(&[("Hello", 50), ("there", 44)]), 5, 1000, 40, 20, 920, BLACK);
    assert_eq!(lines, Some(vec![line("Hello there ", 433, 40, 20)]));
}

#[test]
fn a_word_that_does_not_fit_opens_the_next_line() {
    let lines = draw_wrapped_text_centered(&words(&[("Hello", 50), ("world", 50)]), 5, 1000, 40, 20, 100, BLACK);
    assert_eq!(lines, Some(vec![line("Hello ", 457, 40, 20), line("world ", 457, 64, 20)]));
}

#[test]
fn layout_wrap_boundary() {
    let at_limit = draw_wrapped_text_centered(&words(&[("word", 100)]), 5, 1000, 40, 20, 100, BLACK);
    assert_eq!(at_limit, Some(vec![line("word ", 432, 64, 20)]));
    let under_limit = draw_wrapped_text_centered(&words(&[("word", 99)]), 5, 1000, 40, 20, 100, BLACK);
    assert_eq!(under_limit, Some(vec![line("word ", 433, 40, 20)]));
}

#[test]
fn second_word_that_fills_the_line_exactly_wraps() {
    let exact = draw_wrapped_text_centered(&words(&[("ab", 40), ("cd", 55)]), 5, 1000, 0, 10, 100, BLACK);
    assert_eq!(exact, Some(vec![line("ab ", 462, 0, 10), line("cd ", 455, 12, 10)]));
    let under = draw_wrapped_text_centered(&words(&[("ab", 40), ("cd", 54)]), 5, 1000, 0, 10, 100, BLACK);
    assert_eq!(under, Some(vec![line("ab cd ", 433, 0, 10)]));
}

#[test]
fn a_word_wider_than_the_limit_gets_one_line_to_itself() {
    let lines = draw_wrapped_text_centered(&words(&[("incomprehensibilities", 400)]), 5, 1000, 40, 20, 100, BLACK);
    assert_eq!(lines, Some(vec![line("incomprehensibilities ", 282, 64, 20)]));
}

#[test]
fn wide_word_between_others() {
    let measured = words(&[("a", 10), ("looooong", 300), ("b", 10), ("c", 10)]);
    let lines = draw_wrapped_text_centered(&measured, 5, 400, 10, 10, 100, BLACK);
    assert_eq!(
        lines,
        Some(vec![line("a ", 177, 10, 10), line("looooong ", 32, 22, 10), line("b c ", 170, 34, 10)])
    );
}

#[test]
fn line_wider_than_the_window_starts_left_of_it() {
    let lines = draw_wrapped_text_centered(&words(&[("wide", 300)]), 5, 100, 0, 20, 1000, BLACK);
    assert_eq!(lines, Some(vec![line("wide ", -117, 0, 20)]));
}

#[test]
fn line_advance_is_six_fifths_of_the_font_size_toward_zero() {
    for (font_size, advance) in [(20, 24), (25, 30), (7, 8), (1, 1), (0, 0), (4, 4), (9, 10), (-7, -8), (-20, -24)] {
        let lines = draw_wrapped_text_centered(&words(&[("a", 60), ("b", 60)]), 0, 200, 100, font_size, 100, BLACK);
        assert_eq!(lines, Some(vec![line("a ", 55, 100, font_size), line("b ", 55, 100 + advance, font_size)]));
    }
}

#[test]
fn line_advance_agrees_with_the_float_product() {
    for font_size in -20000..=20000 {
        let expected = (font_size as f32 * 1.2) as i32;
        let lines = draw_wrapped_text_centered(&words(&[("a", 60), ("b", 60)]), 0, 200, 0, font_size, 100, BLACK).unwrap();
        assert_eq!(lines[1].y, expected);
    }
}

#[test]
fn color_and_font_size_go_with_every_line() {
    let red = Color { r: 230, g: 41, b: 55, a: 255 };
    let lines = draw_wrapped_text_centered(&words(&[("a", 60), ("b", 60)]), 0, 200, 0, 33, 100, red).unwrap();
    assert_eq!(lines.len(), 2);
    for placed in &lines {
        assert_eq!(placed.color, red);
        assert_eq!(placed.font_size, 33);
    }
}

#[test]
fn positions_that_cannot_be_drawn_at_give_no_lines() {
    let below = draw_wrapped_text_centered(&words(&[("a", 60), ("b", 60)]), 0, 200, i32::MAX - 23, 20, 100, BLACK);
    assert_eq!(below, None);
    let just_fits = draw_wrapped_text_centered(&words(&[("a", 60), ("b", 60)]), 0, 200, i32::MAX - 24, 20, 100, BLACK);
    assert_eq!(just_fits, Some(vec![line("a ", 55, i32::MAX - 24, 20), line("b ", 55, i32::MAX, 20)]));
    let left = draw_wrapped_text_centered(&words(&[("a", i32::MAX)]), i32::MAX, i32::MIN, 0, 20, 100, BLACK);
    assert_eq!(left, None);
}

#[test]
fn widths_past_the_32_bit_range_are_still_exact() {
    let lines = draw_wrapped_text_centered(&words(&[("a", i32::MAX)]), i32::MAX, 100, 0, 20, i32::MAX, BLACK);
    assert_eq!(lines, Some(vec![line("a ", -2147483612, 24, 20)]));
}

#[test]
fn split_then_layout() {
    let measured: Vec<MeasuredWord> = split_words("to be  or not\tto be")
        .into_iter()
        .map(|text| {
            let width = 10 * text.chars().count() as i32;
            MeasuredWord { text, width }
        })
        .collect();
    let lines = draw_wrapped_text_centered(&measured, 10, 300, 40, 20, 70, BLACK).unwrap();
    assert_eq!(
        lines,
        vec![line("to be ", 105, 40, 20), line("or not ", 100, 64, 20), line("to be ", 105, 88, 20)]
    );
}
