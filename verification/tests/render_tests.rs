use minilang::compile;
use minilang::error::{render_error, Error, ErrorKind};
use minilang::position::{SourcePosition, SourceSpan};

#[test]
fn redeclaration_renders_with_underlined_line() {
    let source = "let x: float = 1.0\nlet x: float = 2.0";
    let err = compile(source).unwrap_err();
    let rendered = render_error(&err, source);
    let expected = format!(
        "error: multiple declarations for single variable\n      let x: float = 2.0\n      {} declaration of previously declared variable \"x\"\n",
        "^".repeat(18)
    );
    assert_eq!(rendered, expected);
}

#[test]
fn undeclared_variable_renders_with_full_statement_span() {
    let source = "x = 1.0";
    let err = compile(source).unwrap_err();
    let rendered = render_error(&err, source);
    assert_eq!(
        rendered,
        "error: use of undeclared variable\n      x = 1.0\n      ^^^^^^^ use of undeclared variable \"x\"\n"
    );
}

#[test]
fn caret_is_positioned_under_the_offending_column() {
    let source = "let q: float = @";
    let err = compile(source).unwrap_err();
    assert_eq!(err.kind, ErrorKind::UnexpectedChar);
    let rendered = render_error(&err, source);
    let expected = format!(
        "error: unexpected character\n      let q: float = @\n      {}^ Unexpected character '@'\n",
        " ".repeat(15)
    );
    assert_eq!(rendered, expected);
}

#[test]
fn render_picks_the_line_the_span_starts_on() {
    let source = "let a: float = 1.0\nlet b: float = 2.0\nc = a";
    let err = compile(source).unwrap_err();
    assert_eq!(err.kind, ErrorKind::UndeclaredVariable);
    let rendered = render_error(&err, source);
    assert_eq!(
        rendered,
        "error: use of undeclared variable\n      c = a\n      ^^^^^ use of undeclared variable \"c\"\n"
    );
}

#[test]
fn render_is_total_for_hand_made_errors() {
    // A span past the end of the text clamps to the last line.
    let err = Error::new(
        ErrorKind::TypeMismatch,
        "made up",
        SourceSpan {
            start_pos: SourcePosition { index: 99, line: 0, column: 99 },
            source_len: 2,
        },
    );
    let rendered = render_error(&err, "ab");
    assert_eq!(rendered, "error: type mismatch\n      ab\n        ^^ made up\n");
}
