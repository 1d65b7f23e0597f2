use vz::present::app::{Key, PresentApp};
use vz::present::render::build_progress_bar;
use vz::present::render::{element_rows, RowHint};
use vz::present::{ChartBlock, Presentation, Slide, SlideElement};

#[test]
fn test_present_app_navigation() {
    let pres = Presentation {
        slides: vec![
            Slide {
                title: Some("1".into()),
                content: vec![],
            },
            Slide {
                title: Some("2".into()),
                content: vec![],
            },
            Slide {
                title: Some("3".into()),
                content: vec![],
            },
        ],
    };
    let mut app = PresentApp::new(pres, String::new());
    assert_eq!(app.current_slide, 0);

    app.handle_key(Key::Right);
    assert_eq!(app.current_slide, 1);

    app.handle_key(Key::Right);
    assert_eq!(app.current_slide, 2);

    // Can't go past the end
    app.handle_key(Key::Right);
    assert_eq!(app.current_slide, 2);

    app.handle_key(Key::Left);
    assert_eq!(app.current_slide, 1);

    // Jump to start
    app.handle_key(Key::Char('g'));
    assert_eq!(app.current_slide, 0);

    // Jump to end
    app.handle_key(Key::Char('G'));
    assert_eq!(app.current_slide, 2);
}

#[test]
fn test_present_app_quit() {
    let pres = Presentation {
        slides: vec![Slide {
            title: None,
            content: vec![],
        }],
    };
    let mut app = PresentApp::new(pres, String::new());
    assert!(!app.should_quit);
    app.handle_key(Key::Char('q'));
    assert!(app.should_quit);
}

#[test]
fn test_slide_indicator() {
    let pres = Presentation {
        slides: vec![
            Slide {
                title: None,
                content: vec![],
            },
            Slide {
                title: None,
                content: vec![],
            },
            Slide {
                title: None,
                content: vec![],
            },
        ],
    };
    let mut app = PresentApp::new(pres, String::new());
    assert_eq!(app.slide_indicator(), "1/3");
    app.handle_key(Key::Right);
    assert_eq!(app.slide_indicator(), "2/3");
}

#[test]
fn test_build_progress_bar_first_slide() {
    let bar = build_progress_bar(0, 5, 10);
    assert_eq!(bar.chars().next(), Some('●'));
    assert_eq!(bar.chars().count(), 10);
}

#[test]
fn test_build_progress_bar_last_slide() {
    let bar = build_progress_bar(4, 5, 10);
    assert_eq!(bar.chars().last(), Some('●'));
    assert_eq!(bar.chars().count(), 10);
}

#[test]
fn test_build_progress_bar_middle() {
    let bar = build_progress_bar(2, 5, 9);
    let chars: Vec<char> = bar.chars().collect();
    assert_eq!(chars[4], '●'); // position 2/(5-1) * (9-1) = 4
}

#[test]
fn test_build_progress_bar_single_slide() {
    let bar = build_progress_bar(0, 1, 10);
    assert!(bar.is_empty());
}

#[test]
fn test_build_progress_bar_narrow() {
    let bar = build_progress_bar(0, 5, 2);
    assert!(bar.is_empty()); // width < 3
}

fn three_slides() -> Presentation {
    Presentation {
        slides: vec![
            Slide { title: Some("1".into()), content: vec![] },
            Slide { title: Some("2".into()), content: vec![] },
            Slide { title: Some("3".into()), content: vec![] },
        ],
    }
}

#[test]
fn test_digit_jump_is_one_based() {
    let mut app = PresentApp::new(three_slides(), String::new());
    app.handle_key(Key::Char('2'));
    assert_eq!(app.current_slide, 0);
    assert_eq!(app.slide_indicator(), "→2 (1/3)");
    app.handle_key(Key::Enter);
    assert_eq!(app.current_slide, 1);
    assert_eq!(app.slide_indicator(), "2/3");
}

#[test]
fn test_digit_jump_past_end_goes_to_last() {
    let mut app = PresentApp::new(three_slides(), String::new());
    app.handle_key(Key::Char('4'));
    app.handle_key(Key::Char('2'));
    app.handle_key(Key::Enter);
    assert_eq!(app.current_slide, 2);
}

#[test]
fn test_digit_zero_jumps_to_first() {
    let mut app = PresentApp::new(three_slides(), String::new());
    app.handle_key(Key::End);
    assert_eq!(app.current_slide, 2);
    app.handle_key(Key::Char('0'));
    app.handle_key(Key::Enter);
    assert_eq!(app.current_slide, 0);
}

#[test]
fn test_escape_cancels_pending_jump() {
    let mut app = PresentApp::new(three_slides(), String::new());
    app.handle_key(Key::Char('3'));
    app.handle_key(Key::Esc);
    assert!(!app.should_quit);
    assert_eq!(app.current_slide, 0);
    assert_eq!(app.slide_indicator(), "1/3");
    app.handle_key(Key::Esc);
    assert!(app.should_quit);
}

#[test]
fn test_other_key_cancels_jump_and_acts() {
    let mut app = PresentApp::new(three_slides(), String::new());
    app.handle_key(Key::Char('3'));
    app.handle_key(Key::Right);
    assert_eq!(app.current_slide, 1);
    assert_eq!(app.slide_indicator(), "2/3");
}

#[test]
fn test_next_then_previous_returns() {
    let mut app = PresentApp::new(three_slides(), String::new());
    app.handle_key(Key::Char(' '));
    app.handle_key(Key::Backspace);
    assert_eq!(app.current_slide, 0);
}

#[test]
fn test_current_slide_lookup() {
    let mut app = PresentApp::new(three_slides(), String::new());
    app.handle_key(Key::Char('l'));
    assert_eq!(app.current_slide().unwrap().title.as_deref(), Some("2"));
    let empty = PresentApp::new(Presentation { slides: vec![] }, String::new());
    assert!(empty.current_slide().is_none());
}

#[test]
fn test_navigation_on_empty_presentation_stays_at_zero() {
    let mut app = PresentApp::new(Presentation { slides: vec![] }, String::new());
    app.handle_key(Key::Right);
    app.handle_key(Key::End);
    assert_eq!(app.current_slide, 0);
    assert_eq!(app.slide_indicator(), "1/0");
}

#[test]
fn test_progress_bar_exact() {
    assert_eq!(build_progress_bar(1, 3, 5), "──●──");
    assert_eq!(build_progress_bar(0, 2, 3), "●──");
}

#[test]
fn element_rows_by_kind() {
    assert_eq!(element_rows(&SlideElement::Text("Hello world".into())), RowHint::Exactly(2));
    assert_eq!(
        element_rows(&SlideElement::Bullets(vec!["a".into(), "b".into(), "c".into()])),
        RowHint::Exactly(4)
    );
    assert_eq!(
        element_rows(&SlideElement::Code {
            language: Some("rust".into()),
            content: "fn main() {\n    println!(\"hi\");\n}".into(),
        }),
        RowHint::Exactly(5)
    );
    assert_eq!(
        element_rows(&SlideElement::Heading { level: 2, text: "Title".into() }),
        RowHint::Exactly(2)
    );
    assert_eq!(
        element_rows(&SlideElement::OrderedList(vec!["one".into(), "two".into()])),
        RowHint::Exactly(3)
    );
    assert_eq!(
        element_rows(&SlideElement::Table {
            headers: vec!["A".into(), "B".into()],
            rows: vec![vec!["1".into(), "2".into()], vec!["3".into(), "4".into()]],
        }),
        RowHint::Exactly(6)
    );
}

#[test]
fn test_element_constraint_chart() {
    let el = SlideElement::Chart(ChartBlock {
        source: "data.csv".into(),
        chart_type: None,
        x_col: None,
        y_col: None,
        color_col: None,
        title: None,
        filter: vec![],
        sort: None,
        agg: None,
        top: None,
        bins: None,
        height: None,
        diff: None,
    });
    assert_eq!(element_rows(&el), RowHint::AtLeast(10));
}

#[test]
fn test_element_constraint_text() {
    let el = SlideElement::Text("Hello world".into());
    assert_eq!(element_rows(&el), RowHint::Exactly(2));
}

#[test]
fn test_element_constraint_bullets() {
    let el = SlideElement::Bullets(vec!["a".into(), "b".into(), "c".into()]);
    assert_eq!(element_rows(&el), RowHint::Exactly(4)); // 3 items + 1
}

#[test]
fn test_element_constraint_code() {
    let el = SlideElement::Code {
        language: Some("rust".into()),
        content: "fn main() {\n    println!(\"hi\");\n}".into(),
    };
    // 3 lines + 2 (border)
    assert_eq!(element_rows(&el), RowHint::Exactly(5));
}

#[test]
fn test_element_constraint_heading() {
    let el = SlideElement::Heading {
        level: 2,
        text: "Title".into(),
    };
    assert_eq!(element_rows(&el), RowHint::Exactly(2));
}

#[test]
fn test_element_constraint_ordered_list() {
    let el = SlideElement::OrderedList(vec!["one".into(), "two".into()]);
    assert_eq!(element_rows(&el), RowHint::Exactly(3)); // 2 items + 1
}

#[test]
fn test_element_constraint_table() {
    let el = SlideElement::Table {
        headers: vec!["A".into(), "B".into()],
        rows: vec![vec!["1".into(), "2".into()], vec!["3".into(), "4".into()]],
    };
    assert_eq!(element_rows(&el), RowHint::Exactly(6)); // 2 rows + 4
}
