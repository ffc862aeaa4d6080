use grid_slice::grid_slice::grid_slice_iter;
use grid_slice::grid_slice_parser::{parse_grid_slice, GridSliceError};
use grid_slice::slice_range::{is_inside_range, EndBound, GridSliceFilter, GridSliceRange};
use grid_slice::text::split_fields;

fn full_range() -> GridSliceRange {
    GridSliceRange {
        from: 0,
        to: EndBound::Unbounded,
        step: 1,
        exclude: false,
    }
}

/// Parses the expression, splits each input line into fields, runs the
/// executor, and joins each record's kept fields with single spaces.
fn run(expr: &str, input: &[&str]) -> Result<Vec<String>, GridSliceError> {
    let filter = parse_grid_slice(&expr.to_string())?;
    assert!(filter.line.step != 0 && filter.field.step != 0 && filter.character.step != 0);
    let lines: Vec<Vec<String>> = input.iter().map(|l| split_fields(l)).collect();
    let mut gs = grid_slice_iter(filter, lines);
    Ok(gs
        .collect_remaining()
        .iter()
        .map(|rec| rec.join(" "))
        .collect())
}

#[test]
fn identity_slice_test() {
    // No axis specified on any position: every line, field and character is
    // kept unchanged.
    let input = ["a b c", "d e f"];
    let out = run(":", &input).unwrap();
    assert_eq!(out, vec!["a b c".to_string(), "d e f".to_string()]);
}

#[test]
fn range_membership_brute_force_test() {
    // The membership test agrees with brute-force enumeration of
    // {a, a + |s|, a + 2|s|, ...} within [a, b].
    for a in 0i64..6 {
        for b in a..12 {
            for s in [-3i64, -2, -1, 1, 2, 3, 5] {
                let range = GridSliceRange {
                    from: a,
                    to: EndBound::Index(b),
                    step: s,
                    exclude: false,
                };
                let mut expected = [false; 16];
                let mut v = a;
                while v <= b {
                    expected[v as usize] = true;
                    v += s.abs();
                }
                for i in 0i64..16 {
                    assert_eq!(
                        is_inside_range(&range, i),
                        expected[i as usize],
                        "a={} b={} s={} i={}",
                        a,
                        b,
                        s,
                        i
                    );
                }
            }
        }
    }
}

#[test]
fn negative_line_step_reverses_test() {
    let input = ["L0", "L1", "L2", "L3", "L4"];
    let filter = GridSliceFilter {
        line: GridSliceRange {
            from: 0,
            to: EndBound::Unbounded,
            step: -1,
            exclude: false,
        },
        field: full_range(),
        character: full_range(),
    };
    let lines: Vec<Vec<String>> = input.iter().map(|l| split_fields(l)).collect();
    let mut gs = grid_slice_iter(filter, lines);
    let mut out = Vec::new();
    while let Some(rec) = gs.next() {
        out.push(rec.join(" "));
    }
    assert_eq!(out, vec!["L4", "L3", "L2", "L1", "L0"]);
}

#[test]
fn pin_selects_one_test() {
    // Expression `L2` over a 5-line input selects only line index 2.
    let input = ["l0", "l1", "l2", "l3", "l4"];
    let out = run("L2", &input).unwrap();
    assert_eq!(out, vec!["l2".to_string()]);
}

#[test]
fn ambiguous_range_test() {
    // A pin colliding with a lowercase bound on the same from/to pair is
    // ambiguous.
    assert_eq!(
        parse_grid_slice(&"l1:L2".to_string()),
        Err(GridSliceError::AmbiguousRangeError)
    );
    assert_eq!(
        parse_grid_slice(&"L1:l2".to_string()),
        Err(GridSliceError::AmbiguousRangeError)
    );
    assert_eq!(
        parse_grid_slice(&"F1:F2".to_string()),
        Err(GridSliceError::AmbiguousRangeError)
    );
    // `l1L2`, by contrast, is a syntax error: a grid index holds at most one
    // line endpoint, so the `L2` is trailing text.
    assert_eq!(
        parse_grid_slice(&"l1L2".to_string()),
        Err(GridSliceError::SyntaxError)
    );
}

#[test]
fn invalid_step_test() {
    assert_eq!(
        parse_grid_slice(&"l1:l5:L2".to_string()),
        Err(GridSliceError::InvalidStepError)
    );
}

#[test]
fn field_selection_test() {
    // A lowercase endpoint sets only the from-bound: `f1` keeps fields from
    // index 1 to the end of each line.
    let input = ["a b c", "d e f", "g h i"];
    let out = run("f1", &input).unwrap();
    assert_eq!(
        out,
        vec!["b c".to_string(), "e f".to_string(), "h i".to_string()]
    );
}

#[test]
fn field_pin_selection_test() {
    // The pin form selects exactly one field per line.
    let input = ["a b c", "d e f", "g h i"];
    let out = run("F1", &input).unwrap();
    assert_eq!(out, vec!["b".to_string(), "e".to_string(), "h".to_string()]);
}

#[test]
fn line_field_range_test() {
    let input = ["a b c", "d e f", "g h i"];
    let out = run("l0f0:l1f1", &input).unwrap();
    assert_eq!(out, vec!["a b".to_string(), "d e".to_string()]);
}

#[test]
fn negative_field_wraparound_test() {
    let input = ["a b c"];
    let out = run("f-1", &input).unwrap();
    assert_eq!(out, vec!["c".to_string()]);
}

#[test]
fn negative_line_wraparound_test() {
    let input = ["a", "b", "c"];
    let out = run("l-1", &input).unwrap();
    assert_eq!(out, vec!["c".to_string()]);
}

#[test]
fn negative_field_step_test() {
    let input = ["a b c"];
    let out = run("::f-1", &input).unwrap();
    assert_eq!(out, vec!["c b a".to_string()]);
}

#[test]
fn char_selection_test() {
    // `c1` keeps characters from index 1 on in every field.
    let input = ["ab cd"];
    let out = run("c1", &input).unwrap();
    assert_eq!(out, vec!["b d".to_string()]);
}

#[test]
fn char_pin_test() {
    let input = ["ab cd"];
    let out = run("C1", &input).unwrap();
    assert_eq!(out, vec!["b d".to_string()]);
}

#[test]
fn negative_char_step_test() {
    let input = ["abc"];
    let out = run("::c-1", &input).unwrap();
    assert_eq!(out, vec!["cba".to_string()]);
}

#[test]
fn char_range_test() {
    let input = ["abcdef"];
    let out = run("c1:c3", &input).unwrap();
    assert_eq!(out, vec!["bcd".to_string()]);
}

#[test]
fn line_step_test() {
    let input = ["0", "1", "2", "3", "4", "5"];
    let out = run("l0:l5:l2", &input).unwrap();
    assert_eq!(out, vec!["0".to_string(), "2".to_string(), "4".to_string()]);
}

#[test]
fn syntax_error_test() {
    // An empty expression, a stray word, and trailing text after a valid
    // parse are all syntax errors.
    assert_eq!(
        parse_grid_slice(&"".to_string()),
        Err(GridSliceError::SyntaxError)
    );
    assert_eq!(
        parse_grid_slice(&"r42".to_string()),
        Err(GridSliceError::SyntaxError)
    );
    assert_eq!(
        parse_grid_slice(&"l42F0:::".to_string()),
        Err(GridSliceError::SyntaxError)
    );
}

#[test]
fn error_message_test() {
    assert_eq!(
        GridSliceError::SyntaxError.message(),
        "Unable to parse the input"
    );
    assert_eq!(
        GridSliceError::AmbiguousRangeError.message(),
        "Ambiguous range specified. 'L'/'F' was used in conjunction with 'l'/'f' for the same range"
    );
    assert_eq!(
        GridSliceError::InvalidStepError.message(),
        "Step specifier cannot be uppercase"
    );
}

#[test]
fn empty_input_test() {
    let input: [&str; 0] = [];
    assert_eq!(run(":", &input).unwrap(), Vec::<String>::new());
    assert_eq!(run("l-1", &input).unwrap(), Vec::<String>::new());
}

#[test]
fn empty_line_test() {
    // A line with no fields still produces one (empty) record when selected.
    let input = ["", "a"];
    let out = run(":", &input).unwrap();
    assert_eq!(out, vec!["".to_string(), "a".to_string()]);
}

#[test]
fn out_of_range_pin_test() {
    // A pin past the end selects nothing.
    let input = ["a", "b"];
    assert_eq!(run("L5", &input).unwrap(), Vec::<String>::new());
}

#[test]
fn negative_from_clipped_test() {
    // A negative from-bound that reaches past the start is clipped to 0:
    // `from' = max(N - |from|, 0)`.
    let input = ["a", "b"];
    let out = run("l-5", &input).unwrap();
    assert_eq!(out, vec!["a".to_string(), "b".to_string()]);
    let out = run("f-5", &["a b"]).unwrap();
    assert_eq!(out, vec!["a b".to_string()]);
}

#[test]
fn needs_buffering_test() {
    let cases = [
        ("l1:l2", false),
        ("f-1", false),
        ("l-1", true),
        ("l0:l-2", true),
        ("::l-1", true),
    ];
    for (expr, expected) in cases {
        let filter = parse_grid_slice(&expr.to_string()).unwrap();
        assert_eq!(filter.needs_buffering(), expected, "{}", expr);
    }
}

#[test]
fn stream_line_matches_buffered_test() {
    // For a filter that does not force buffering, judging lines one at a time
    // gives the same records as the buffered path.  `l1:f1` selects lines
    // from index 1 on, and fields up to index 1.
    let input = ["a b c", "d e f", "g h i"];
    let filter = parse_grid_slice(&"l1:f1".to_string()).unwrap();
    assert!(!filter.needs_buffering());

    let lines: Vec<Vec<String>> = input.iter().map(|l| split_fields(l)).collect();
    let mut streamed = Vec::new();
    for (i, fields) in lines.iter().enumerate() {
        if let Some(rec) = filter.stream_line(i, fields) {
            streamed.push(rec.join(" "));
        }
    }

    let mut gs = grid_slice_iter(filter, lines);
    let mut buffered = Vec::new();
    while let Some(rec) = gs.next() {
        buffered.push(rec.join(" "));
    }
    assert_eq!(streamed, buffered);
    assert_eq!(streamed, vec!["d e".to_string(), "g h".to_string()]);
}

#[test]
fn split_fields_test() {
    let f = split_fields("  a\tbc  d  ");
    assert_eq!(
        f,
        vec!["a".to_string(), "bc".to_string(), "d".to_string()]
    );
    assert_eq!(split_fields(""), Vec::<String>::new());
    assert_eq!(split_fields(" \t "), Vec::<String>::new());
    assert_eq!(split_fields("one"), vec!["one".to_string()]);
}

#[test]
fn exclude_flag_carried_test() {
    // The exclude marker parses and is carried into the resolved range, but
    // selection is unaffected by it.
    let filter = parse_grid_slice(&"!l1".to_string()).unwrap();
    assert!(filter.line.exclude);
    let input = ["a", "b", "c"];
    let out = run("!l1", &input).unwrap();
    assert_eq!(out, vec!["b".to_string(), "c".to_string()]);
}

#[test]
fn exclude_only_before_lowercase_test() {
    // The pinned (uppercase) endpoint form takes no exclude marker.
    assert_eq!(
        parse_grid_slice(&"!L5".to_string()),
        Err(GridSliceError::SyntaxError)
    );
}

#[test]
fn permuted_axes_equivalent_test() {
    // Any permutation such as `c0f1l1` parses identically to `l1f1c0`: all
    // are lower bounds, so line 1 on, fields 1 on, characters 0 on.
    let input = ["ab cd ef", "gh ij kl"];
    let a = run("l1f1c0", &input).unwrap();
    let b = run("c0f1l1", &input).unwrap();
    let c = run("f1c0l1", &input).unwrap();
    assert_eq!(a, vec!["ij kl".to_string()]);
    assert_eq!(a, b);
    assert_eq!(a, c);
}
