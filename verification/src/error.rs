use vstd::prelude::*;

use crate::position::{SourceSpan, SpecSpan};

verus! {

/// The closed set of failures the pipeline can report.
#[derive(Copy, Clone, PartialEq, Eq, Structural, Debug)]
pub enum ErrorKind {
    UnexpectedChar,
    UnexpectedToken,
    UndeclaredVariable,
    TypeMismatch,
    Redeclaration,
}

/// A diagnostic: what went wrong, a human-readable message, and the source
/// range the problem was found at.
#[derive(Debug, PartialEq, Clone)]
pub struct Error {
    pub kind: ErrorKind,
    pub msg: String,
    pub pos: SourceSpan,
}

/// Mathematical model of a diagnostic.
pub struct SpecErr {
    pub kind: ErrorKind,
    pub msg: Seq<char>,
    pub span: SpecSpan,
}

impl View for Error {
    type V = SpecErr;

    open spec fn view(&self) -> SpecErr {
        SpecErr { kind: self.kind, msg: self.msg@, span: self.pos@ }
    }
}

impl Error {
    pub fn new(kind: ErrorKind, msg: &str, pos: SourceSpan) -> (r: Self)
        ensures
            r@ == (SpecErr { kind, msg: msg@, span: pos@ }),
    {
        Error { kind, msg: msg.to_owned(), pos }
    }
}

// === The diagnostic reporter ===
/// The title line printed for each kind of failure.
pub open spec fn kind_title(k: ErrorKind) -> Seq<char> {
    match k {
        ErrorKind::UnexpectedChar => "unexpected character"@,
        ErrorKind::UnexpectedToken => "unexpected token"@,
        ErrorKind::UndeclaredVariable => "use of undeclared variable"@,
        ErrorKind::TypeMismatch => "type mismatch"@,
        ErrorKind::Redeclaration => "multiple declarations for single variable"@,
    }
}

/// The index where the line containing index `i` starts: just after the
/// previous newline, or at the start of the text.
pub open spec fn line_start(src: Seq<char>, i: int) -> int
    decreases i,
{
    if i <= 0 {
        0
    } else if src[i - 1] == '\n' {
        i
    } else {
        line_start(src, i - 1)
    }
}

/// The index where the line containing index `i` ends: at the next newline,
/// or at the end of the text.
pub open spec fn line_end(src: Seq<char>, i: int) -> int
    decreases crate::lexer::remaining(src, i),
{
    if !(0 <= i < src.len()) {
        if i < 0 {
            0
        } else {
            src.len() as int
        }
    } else if src[i] == '\n' {
        i
    } else {
        line_end(src, i + 1)
    }
}

/// `n` copies of one character.
pub open spec fn repeat_char(c: char, n: int) -> Seq<char> {
    Seq::new(
        if n >= 0 {
            n as nat
        } else {
            0
        },
        |x: int| c,
    )
}

/// The rendered diagnostic: a title naming the error kind, the source line
/// the error's span starts on, and an underline of caret marks as long as
/// the span, positioned under the offending column, followed by the message.
pub open spec fn spec_render(e: SpecErr, src: Seq<char>) -> Seq<char> {
    let idx = if e.span.start.index < 0 {
        0
    } else if e.span.start.index > src.len() {
        src.len() as int
    } else {
        e.span.start.index
    };
    let ls = line_start(src, idx);
    let le = line_end(src, idx);
    "error: "@ + kind_title(e.kind) + "\n      "@ + src.subrange(ls, le) + "\n      "@
        + repeat_char(' ', idx - ls) + repeat_char('^', e.span.len) + " "@ + e.msg + "\n"@
}

/// `n` copies of a one-character piece.
fn repeat_str(piece: &str, n: usize, c: Ghost<char>) -> (r: String)
    requires
        piece@ == seq![c@],
    ensures
        r@ == repeat_char(c@, n as int),
{
    let mut out = String::new();
    let mut k: usize = 0;
    proof {
        assert(out@ =~= repeat_char(c@, 0));
    }
    while k < n
        invariant
            k <= n,
            piece@ == seq![c@],
            out@ == repeat_char(c@, k as int),
        decreases n - k,
    {
        out.append(piece);
        k = k + 1;
        proof {
            assert(out@ =~= repeat_char(c@, k as int));
        }
    }
    out
}

/// Render a diagnostic against the source text it was produced from. The
/// line holding the span's start is located by scanning for the enclosing
/// newlines, and the span's start column is derived from its absolute
/// character index.
pub fn render_error(error: &Error, source: &str) -> (r: String)
    ensures
        r@ == spec_render(error@, source@),
{
    let ghost src = source@;
    let n: usize = source.unicode_len();
    let idx: usize = if error.pos.start_pos.index > n {
        n
    } else {
        error.pos.start_pos.index
    };
    let mut ls: usize = idx;
    while ls > 0 && source.get_char(ls - 1) != '\n'
        invariant
            ls <= idx <= n,
            n == src.len(),
            src == source@,
            line_start(src, idx as int) == line_start(src, ls as int),
        decreases ls,
    {
        ls = ls - 1;
    }
    let mut le: usize = idx;
    while le < n && source.get_char(le) != '\n'
        invariant
            idx <= le <= n,
            n == src.len(),
            src == source@,
            line_end(src, idx as int) == line_end(src, le as int),
        decreases n - le,
    {
        le = le + 1;
    }
    let mut out: String = ("error: ").to_owned();
    let title: &str = match error.kind {
        ErrorKind::UnexpectedChar => "unexpected character",
        ErrorKind::UnexpectedToken => "unexpected token",
        ErrorKind::UndeclaredVariable => "use of undeclared variable",
        ErrorKind::TypeMismatch => "type mismatch",
        ErrorKind::Redeclaration => "multiple declarations for single variable",
    };
    out.append(title);
    out.append("\n      ");
    out.append(source.substring_char(ls, le));
    out.append("\n      ");
    proof {
        reveal_strlit(" ");
        reveal_strlit("^");
        assert(" "@ =~= seq![' ']);
        assert("^"@ =~= seq!['^']);
    }
    let spaces = repeat_str(" ", idx - ls, Ghost(' '));
    out.append(spaces.as_str());
    let marks = repeat_str("^", error.pos.source_len, Ghost('^'));
    out.append(marks.as_str());
    out.append(" ");
    out.append(error.msg.as_str());
    out.append("\n");
    out
}

} // verus!
