use branchless::hooks::{
    has_unterminated_region, update_between_lines, UPDATE_MARKER_END, UPDATE_MARKER_START,
};

#[test]
fn test_update_between_lines() {
    let input = format!(
        "\
hello, world
{}
contents 1
{}
goodbye, world
",
        UPDATE_MARKER_START, UPDATE_MARKER_END
    );
    let expected = format!(
        "\
hello, world
{}
contents 2
contents 3
{}
goodbye, world
",
        UPDATE_MARKER_START, UPDATE_MARKER_END
    );

    assert_eq!(
        update_between_lines(
            &input,
            "\
contents 2
contents 3
"
        ),
        expected
    )
}

#[test]
fn test_update_is_idempotent() {
    let input = format!(
        "#!/bin/sh\nfirst\n{}\nold\n{}\nlast\n",
        UPDATE_MARKER_START, UPDATE_MARKER_END
    );
    let body = "\ngit branchless hook-post-commit \"$@\"\n";
    let once = update_between_lines(&input, body);
    let twice = update_between_lines(&once, body);
    assert_eq!(once, twice);
    assert_eq!(
        once,
        format!(
            "#!/bin/sh\nfirst\n{}\n\ngit branchless hook-post-commit \"$@\"\n{}\nlast\n",
            UPDATE_MARKER_START, UPDATE_MARKER_END
        )
    );
}

#[test]
fn test_update_without_markers_keeps_lines() {
    assert_eq!(update_between_lines("a\nb", "x\n"), "a\nb\n");
    assert_eq!(update_between_lines("", "x\n"), "");
    assert_eq!(update_between_lines("a\r\nb\r\n", "x\n"), "a\nb\n");
    assert_eq!(update_between_lines("a\r", "x\n"), "a\r\n");
}

#[test]
fn test_update_unterminated_region() {
    let input = format!("keep\n{}\nlost 1\nlost 2\n", UPDATE_MARKER_START);
    assert_eq!(
        update_between_lines(&input, "new\n"),
        format!("keep\n{}\nnew\n{}\n", UPDATE_MARKER_START, UPDATE_MARKER_END)
    );
    assert!(has_unterminated_region(&input));
    let closed = format!("{}\n{}\n", UPDATE_MARKER_START, UPDATE_MARKER_END);
    assert!(!has_unterminated_region(&closed));
    assert!(!has_unterminated_region("no markers\n"));
}

#[test]
fn test_update_drops_stray_end_marker() {
    let input = format!("a\n{}\nb\n", UPDATE_MARKER_END);
    assert_eq!(update_between_lines(&input, "new\n"), "a\nb\n");
}

/// The update written with the line iterator of the standard library.
fn update_by_std_lines(lines: &str, updated_lines: &str) -> String {
    let mut new_lines = String::new();
    let mut is_ignoring_lines = false;
    for line in lines.lines() {
        if line == UPDATE_MARKER_START {
            is_ignoring_lines = true;
            new_lines.push_str(UPDATE_MARKER_START);
            new_lines.push('\n');
            new_lines.push_str(updated_lines);
            new_lines.push_str(UPDATE_MARKER_END);
            new_lines.push('\n');
        } else if line == UPDATE_MARKER_END {
            is_ignoring_lines = false;
        } else if !is_ignoring_lines {
            new_lines.push_str(line);
            new_lines.push('\n');
        }
    }
    new_lines
}

#[test]
fn test_update_splits_lines_as_the_standard_library_does() {
    let start = UPDATE_MARKER_START;
    let end = UPDATE_MARKER_END;
    let inputs = vec![
        String::new(),
        "\n".to_owned(),
        "\n\n".to_owned(),
        "a".to_owned(),
        "a\n".to_owned(),
        "a\r\n".to_owned(),
        "a\r".to_owned(),
        "a\r\r\n".to_owned(),
        "\r\n".to_owned(),
        "\r".to_owned(),
        "a\rb\n".to_owned(),
        "a\n\nb".to_owned(),
        format!("{}\r\nx\n{}\r\ny", start, end),
        format!("{}\r", start),
        format!("{}\r\n", start),
        format!(" {}\nx\n{} \ny\n", start, end),
        format!("{}\n{}\n{}\nz\n{}\n{}\nw", end, start, start, end, end),
        format!("h{}llo\n{}\n{}\n", '\u{e9}', start, '\u{1f600}'),
    ];
    for input in &inputs {
        for body in ["", "new\n", "no newline", "\r\n"] {
            assert_eq!(update_between_lines(input, body), update_by_std_lines(input, body));
        }
    }
}
