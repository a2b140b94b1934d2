use koto::diagnostics::{format_error, split_lines, Position, Span};
use koto::driver::{
    format_compile_error, format_external_error, format_fault, format_missing_function,
    format_vm_error, Error,
};
use koto::text::{chars_of, same_text, string_of};

fn span(start: (u32, u32), end: (u32, u32)) -> Span {
    Span {
        start: Position { line: start.0, column: start.1 },
        end: Position { line: end.0, column: end.1 },
    }
}

fn lines(script: &str) -> Vec<String> {
    let chars = chars_of(script);
    split_lines(&chars)
        .iter()
        .map(|(from, to)| chars[*from..*to].iter().collect::<String>())
        .collect()
}

#[test]
fn single_line_span_shows_the_line_and_carets() {
    let text = format_error("unexpected token", "x = 1 + + 2", span((1, 3), (1, 6)));
    assert_eq!(
        text,
        "unexpected token\n --> 1:3\n   |\n 1 | x = 1 + + 2\n   |   ^^^"
    );
}

#[test]
fn caret_line_has_start_column_spaces_and_one_caret_per_column() {
    let text = format_error("m", "abcdefgh", span((1, 3), (1, 6)));
    let last = text.lines().last().unwrap();
    let after_bar = last.split('|').nth(1).unwrap();
    assert_eq!(after_bar, format!("{}{}", " ".repeat(3), "^".repeat(3)));
}

#[test]
fn multi_line_span_shows_each_line_without_carets() {
    let text = format_error("bad block", "first line\nsecond line\nthird", span((1, 7), (2, 5)));
    assert_eq!(
        text,
        "bad block\n --> 1:7\n   |\n 1 | first line\n 2 | second line\n"
    );
    assert!(!text.contains('^'));
}

#[test]
fn line_numbers_are_right_aligned_to_the_widest() {
    let script = "1\n2\n3\n4\n5\n6\n7\n8\nnine\nten\neleven";
    let text = format_error("m", script, span((9, 1), (10, 2)));
    assert_eq!(text, "m\n --> 9:1\n    |\n  9 | nine\n 10 | ten\n");
}

#[test]
fn single_line_span_on_a_two_digit_line() {
    let script = "1\n2\n3\n4\n5\n6\n7\n8\n9\nabc def";
    let text = format_error("m", script, span((10, 4), (10, 7)));
    assert_eq!(text, "m\n --> 10:4\n    |\n 10 | abc def\n    |    ^^^");
}

#[test]
fn empty_span_has_no_carets() {
    let text = format_error("m", "abc", span((1, 2), (1, 2)));
    assert_eq!(text, "m\n --> 1:2\n   |\n 1 | abc\n   |  ");
}

#[test]
fn span_past_the_end_of_the_script_shows_what_there_is() {
    let text = format_error("m", "only", span((1, 1), (3, 1)));
    assert_eq!(text, "m\n --> 1:1\n   |\n 1 | only\n");
    let text = format_error("m", "only", span((2, 1), (2, 3)));
    assert_eq!(text, "m\n --> 2:1\n   |\n");
}

#[test]
fn lines_end_at_line_feeds_and_drop_the_carriage_return() {
    assert_eq!(lines("a\nb"), vec!["a", "b"]);
    assert_eq!(lines("a\r\nb\r\n"), vec!["a", "b"]);
    assert_eq!(lines("a\n\nb\n"), vec!["a", "", "b"]);
    assert_eq!(lines(""), Vec::<String>::new());
    assert_eq!(lines("\n"), vec![""]);
    assert_eq!(lines("a\rb"), vec!["a\rb"]);
    assert_eq!(lines("last\r"), vec!["last\r"]);
    let std_lines: Vec<String> = "x\r\ny\n\nz".lines().map(|l| l.to_string()).collect();
    assert_eq!(lines("x\r\ny\n\nz"), std_lines);
}

#[test]
fn span_check_accepts_what_starts_before_it_ends() {
    assert!(span((1, 1), (1, 1)).check());
    assert!(span((1, 5), (2, 1)).check());
    assert!(!span((0, 1), (1, 1)).check());
    assert!(!span((2, 1), (1, 9)).check());
    assert!(!span((1, 5), (1, 4)).check());
}

#[test]
fn vm_fault_without_a_span_names_the_instruction() {
    assert_eq!(
        format_vm_error("x = 1", "stack overflow", 42, None),
        "Runtime error at instruction 42: stack overflow\n"
    );
}

#[test]
fn vm_fault_with_a_span_is_a_diagnostic() {
    assert_eq!(
        format_vm_error("x = y", "unknown name", 3, Some(span((1, 4), (1, 5)))),
        "unknown name\n --> 1:4\n   |\n 1 | x = y\n   |    ^"
    );
}

#[test]
fn faults_are_rendered_by_kind() {
    let vm = Error::VmError { message: "boom".to_string(), instruction: 0 };
    assert_eq!(format_fault("s", &vm, None), "Runtime error at instruction 0: boom\n");
    let external = Error::ExternalError { message: "no file".to_string() };
    assert_eq!(format_fault("s", &external, Some(span((1, 1), (1, 1)))), "Error: no file\n");
    assert_eq!(format_external_error("no file"), "Error: no file\n");
}

#[test]
fn compile_and_lookup_faults() {
    assert_eq!(
        format_compile_error("too many constants"),
        "Error while compiling script: too many constants"
    );
    assert_eq!(
        format_missing_function("main"),
        "Runtime error: function 'main' not found"
    );
}

#[test]
fn text_round_trips_through_characters() {
    let text = "héllo ✓ wörld";
    assert_eq!(string_of(&chars_of(text)), text);
    assert!(same_text("abc", "abc"));
    assert!(!same_text("abc", "abd"));
    assert!(!same_text("abc", "ab"));
}
