use chubby_bunny::{parse_simple_polygon_path, parses_as_float, plan_polygon_path, tokenize_path_data, PathStep};

fn tokens(d: &str) -> Vec<String> {
    tokenize_path_data(d)
}

#[test]
fn tokenize_separates_commands_and_numbers() {
    assert_eq!(tokens("M10,20 L30 40z"), vec!["M", "10", "20", "L", "30", "40", "z"]);
}

#[test]
fn tokenize_handles_whitespace_kinds() {
    assert_eq!(tokens("  m\t1.5,-2\n\r h 3 "), vec!["m", "1.5", "-2", "h", "3"]);
    assert_eq!(tokens("\u{a0}V\u{2003}7"), vec!["V", "7"]);
    assert!(tokens("").is_empty());
    assert!(tokens(" , ,, ").is_empty());
}

#[test]
fn tokenize_splits_letters_inside_numbers() {
    assert_eq!(tokens("1e5"), vec!["1", "e", "5"]);
    assert_eq!(tokens("10L20"), vec!["10", "L", "20"]);
}

#[test]
fn float_grammar_matches_std_parse() {
    let cases = [
        "1.5", "-.5", "+.5", "1e5", "1E-5", "1e", ".", "inf", "+Infinity", "-INF", "nan", "NaN",
        "abc", "1_0", " 1", "1 ", "", "+", "-", "1.2.3", "e5", ".5e+3", "5.", "0", "007",
        "1e+", "1e-", "1.e3", ".e3", "infinit", "infinityy", "--1", "+-1", "1e1.5", "١",
        "1ee5", "0x10", "1,5",
    ];
    for s in cases {
        assert_eq!(parses_as_float(s), s.parse::<f32>().is_ok(), "case {:?}", s);
    }
}

#[test]
fn plan_closed_square() {
    let steps = parse_simple_polygon_path("M 0 0 L 10 0 L 10 10 L 0 10 Z");
    assert_eq!(
        steps,
        vec![
            PathStep::Absolute { x: 1, y: 2 },
            PathStep::Absolute { x: 4, y: 5 },
            PathStep::Absolute { x: 7, y: 8 },
            PathStep::Absolute { x: 10, y: 11 },
        ]
    );
}

#[test]
fn plan_move_continues_as_line() {
    let steps = parse_simple_polygon_path("M 0 0 10 0 10 10");
    assert_eq!(
        steps,
        vec![
            PathStep::Absolute { x: 1, y: 2 },
            PathStep::Absolute { x: 3, y: 4 },
            PathStep::Absolute { x: 5, y: 6 },
        ]
    );
    let steps = parse_simple_polygon_path("m 1 1 2 2");
    assert_eq!(steps, vec![PathStep::Relative { x: 1, y: 2 }, PathStep::Relative { x: 3, y: 4 }]);
}

#[test]
fn plan_horizontal_and_vertical() {
    let steps = parse_simple_polygon_path("M0,0H5V6h1v1z");
    assert_eq!(
        steps,
        vec![
            PathStep::Absolute { x: 1, y: 2 },
            PathStep::HorizontalAbsolute { x: 4 },
            PathStep::VerticalAbsolute { y: 6 },
            PathStep::HorizontalRelative { x: 8 },
            PathStep::VerticalRelative { y: 10 },
        ]
    );
}

#[test]
fn plan_stops_at_bad_operand_or_curve() {
    assert_eq!(parse_simple_polygon_path("M 0 0 L x 1 L 2 2"), vec![PathStep::Absolute { x: 1, y: 2 }]);
    assert_eq!(parse_simple_polygon_path("M 0 0 C 1 1 2 2 3 3"), vec![PathStep::Absolute { x: 1, y: 2 }]);
    assert_eq!(parse_simple_polygon_path("M 0"), vec![]);
    assert_eq!(parse_simple_polygon_path("Z M 0 0"), vec![]);
}

#[test]
fn plan_from_given_tokens() {
    let toks: Vec<String> = vec!["L".into(), "1".into(), "2".into(), "V".into(), "3".into()];
    let numeric = vec![false, true, true, false, true];
    assert_eq!(
        plan_polygon_path(&toks, &numeric),
        vec![PathStep::Absolute { x: 1, y: 2 }, PathStep::VerticalAbsolute { y: 4 }]
    );
    // a token marked as no number ends the path
    let numeric = vec![false, true, false, false, true];
    assert_eq!(plan_polygon_path(&toks, &numeric), vec![]);
}
