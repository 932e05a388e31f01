use flashcards::question::QuestionT;

fn card(question: &str, answer: &str, is_easy: bool) -> QuestionT {
    QuestionT { question: question.to_string(), answer: answer.to_string(), is_easy }
}

fn marks(flags: &[bool]) -> Vec<QuestionT> {
    flags.iter().map(|easy| card("q", "a", *easy)).collect()
}

fn row(fields: &[&str]) -> Option<Vec<String>> {
    Some(fields.iter().map(|field| field.to_string()).collect())
}

#[test]
fn row_filtering() {
    let sources = vec![b"Q1;A1\nbad_row_no_semicolon\nQ2;A2;extra\n".to_vec()];
    assert_eq!(QuestionT::new(&sources), vec![card("Q1", "A1", false)]);
}

#[test]
fn row_filtering_on_rows() {
    let rows = vec![row(&["Q1", "A1"]), row(&["bad_row_no_semicolon"]), row(&["Q2", "A2", "extra"])];
    assert_eq!(QuestionT::from_rows(&rows), vec![card("Q1", "A1", false)]);
}

#[test]
fn first_row_is_a_card_like_any_other() {
    let sources = vec![b"question;answer\nQ1;A1\n".to_vec()];
    assert_eq!(
        QuestionT::new(&sources),
        vec![card("question", "answer", false), card("Q1", "A1", false)]
    );
}

#[test]
fn rows_keep_their_order_across_sources() {
    let sources = vec![b"a;1\nb;2\n".to_vec(), Vec::new(), b"c;3\nx\nd;4".to_vec()];
    assert_eq!(
        QuestionT::new(&sources),
        vec![card("a", "1", false), card("b", "2", false), card("c", "3", false), card("d", "4", false)]
    );
}

#[test]
fn no_sources_no_cards() {
    assert_eq!(QuestionT::new(&Vec::new()), Vec::new());
    assert_eq!(QuestionT::new(&vec![Vec::new()]), Vec::new());
    assert_eq!(QuestionT::from_rows(&Vec::new()), Vec::new());
}

#[test]
fn quoted_field_may_hold_the_separator() {
    let sources = vec![b"\"a;b\";c\n".to_vec()];
    assert_eq!(QuestionT::new(&sources), vec![card("a;b", "c", false)]);
}

#[test]
fn comma_does_not_separate() {
    let sources = vec![b"a,b\nc,d;e\n".to_vec()];
    assert_eq!(QuestionT::new(&sources), vec![card("c,d", "e", false)]);
}

#[test]
fn empty_fields_still_make_a_card() {
    let sources = vec![b";\n".to_vec()];
    assert_eq!(QuestionT::new(&sources), vec![card("", "", false)]);
}

#[test]
fn row_that_is_not_text_is_dropped() {
    let sources = vec![b"Q1;A1\n\xff\xfe;x\nQ2;A2\n".to_vec()];
    assert_eq!(QuestionT::new(&sources), vec![card("Q1", "A1", false), card("Q2", "A2", false)]);
}

#[test]
fn unreadable_row_makes_no_card() {
    let rows = vec![None, row(&["Q", "A"]), None];
    assert_eq!(QuestionT::from_rows(&rows), vec![card("Q", "A", false)]);
}

#[test]
fn parse_record_takes_exactly_two_fields() {
    let two: Vec<String> = vec!["Q".to_string(), "A".to_string()];
    assert_eq!(QuestionT::parse_record(&two), Some(card("Q", "A", false)));
    assert_eq!(QuestionT::parse_record(&Vec::new()), None);
    assert_eq!(QuestionT::parse_record(&vec!["Q".to_string()]), None);
    assert_eq!(
        QuestionT::parse_record(&vec!["Q".to_string(), "A".to_string(), "B".to_string()]),
        None
    );
}

#[test]
fn mark_as_easy_sets_the_mark_only() {
    let mut question = card("Q", "A", false);
    question.mark_as_easy();
    assert_eq!(question, card("Q", "A", true));
    question.mark_as_easy();
    assert_eq!(question, card("Q", "A", true));
}

#[test]
fn next_takes_the_nearest_unmastered_card_after() {
    let mut questions = marks(&[false, true, false, false]);
    assert_eq!(QuestionT::next(&mut questions, 0), Some(2));
    assert_eq!(QuestionT::next(&mut questions, 1), Some(2));
    assert_eq!(QuestionT::next(&mut questions, 2), Some(3));
}

#[test]
fn next_wraps_to_the_nearest_unmastered_card_from_the_start() {
    let mut questions = marks(&[true, false, false]);
    assert_eq!(QuestionT::next(&mut questions, 2), Some(1));
    let mut questions = marks(&[false, false, true]);
    assert_eq!(QuestionT::next(&mut questions, 1), Some(0));
    assert_eq!(QuestionT::next(&mut questions, 2), Some(0));
}

#[test]
fn next_comes_back_to_the_current_card_when_no_other_is_left() {
    let mut questions = marks(&[true, false, true]);
    assert_eq!(QuestionT::next(&mut questions, 1), Some(1));
}

#[test]
fn next_falls_back_to_the_first_card() {
    let mut questions = marks(&[true, true, true]);
    assert_eq!(QuestionT::next(&mut questions, 0), Some(0));
    assert_eq!(QuestionT::next(&mut questions, 1), Some(0));
    assert_eq!(QuestionT::next(&mut questions, 2), Some(0));
    let mut none: Vec<QuestionT> = Vec::new();
    assert_eq!(QuestionT::next(&mut none, 0), Some(0));
}

#[test]
fn next_from_beyond_the_end_looks_from_the_start() {
    let mut questions = marks(&[true, false, false]);
    assert_eq!(QuestionT::next(&mut questions, 3), Some(1));
    assert_eq!(QuestionT::next(&mut questions, usize::MAX), Some(1));
}

#[test]
fn next_leaves_the_cards_alone() {
    let mut questions = marks(&[true, false]);
    QuestionT::next(&mut questions, 0);
    assert_eq!(questions, marks(&[true, false]));
}

#[test]
fn check_if_all_questions_easy_wants_every_card() {
    assert!(QuestionT::check_if_all_questions_easy(&Vec::new()));
    assert!(QuestionT::check_if_all_questions_easy(&marks(&[true, true])));
    assert!(!QuestionT::check_if_all_questions_easy(&marks(&[true, false, true])));
    assert!(!QuestionT::check_if_all_questions_easy(&marks(&[false])));
}
