use minilang::ast::{Assignment, Block, Expression, Factor, FactorOp, Leaf, Term, TermOp};
use minilang::error::ErrorKind;
use minilang::lexer::Lexer;
use minilang::parser::Parser;
use minilang::token_span::TokenSpan;

fn parse_source(source: &str) -> Result<Block, minilang::error::Error> {
    let tokens = Lexer::new(source).lex().unwrap();
    Parser::new(&tokens).parse()
}

#[test]
fn multiplication_binds_tighter_than_addition() {
    // 1.0 + 2.0 * 3.0 parses as Add(1.0, Mul(2.0, 3.0)).
    let block = parse_source("1.0 + 2.0 * 3.0").unwrap();
    let expected = Block {
        expressions: vec![Expression::Term(Term::Operation(
            Box::new(Term::Factor(Factor::Leaf(Leaf::FloatLiteral(
                "1.0".to_string(),
                1,
            )))),
            TermOp::Add,
            Factor::Operation(
                Box::new(Factor::Leaf(Leaf::FloatLiteral("2.0".to_string(), 3))),
                FactorOp::Multiply,
                Leaf::FloatLiteral("3.0".to_string(), 5),
            ),
        ))],
        start_index: 0,
    };
    assert_eq!(block, expected);
}

#[test]
fn empty_program_is_an_empty_block() {
    let block = parse_source("").unwrap();
    assert_eq!(block, Block { expressions: vec![], start_index: 0 });
}

#[test]
fn subtraction_nests_to_the_left() {
    // 1.0 - 2.0 - 3.0 parses as Sub(Sub(1.0, 2.0), 3.0).
    let block = parse_source("1.0 - 2.0 - 3.0").unwrap();
    let expected = Expression::Term(Term::Operation(
        Box::new(Term::Operation(
            Box::new(Term::Factor(Factor::Leaf(Leaf::FloatLiteral(
                "1.0".to_string(),
                1,
            )))),
            TermOp::Subtract,
            Factor::Leaf(Leaf::FloatLiteral("2.0".to_string(), 3)),
        )),
        TermOp::Subtract,
        Factor::Leaf(Leaf::FloatLiteral("3.0".to_string(), 5)),
    ));
    assert_eq!(block.expressions[0], expected);
}

#[test]
fn parentheses_override_precedence() {
    // (1.0 + 2.0) * 3.0: the parenthesized sum is the left factor.
    let block = parse_source("(1.0 + 2.0) * 3.0").unwrap();
    match &block.expressions[0] {
        Expression::Term(Term::Factor(Factor::Operation(lhs, FactorOp::Multiply, rhs))) => {
            match &**lhs {
                Factor::Leaf(Leaf::Term(inner)) => match &**inner {
                    Term::Operation(_, TermOp::Add, _) => {}
                    other => panic!("inner term has the wrong shape: {:?}", other),
                },
                other => panic!("left factor has the wrong shape: {:?}", other),
            }
            assert_eq!(rhs, &Leaf::FloatLiteral("3.0".to_string(), 7));
        }
        other => panic!("program has the wrong shape: {:?}", other),
    }
}

#[test]
fn initialization_with_and_without_value() {
    let block = parse_source("let x: float = 1.0").unwrap();
    match &block.expressions[0] {
        Expression::Assignment(Assignment::Initialization(name, ty, Some(_), start)) => {
            assert_eq!(name, "x");
            assert_eq!(ty, "float");
            assert_eq!(*start, 1);
        }
        other => panic!("expected an initialization, got {:?}", other),
    }
    let block = parse_source("let y: void").unwrap();
    match &block.expressions[0] {
        Expression::Assignment(Assignment::Initialization(name, ty, None, start)) => {
            assert_eq!(name, "y");
            assert_eq!(ty, "void");
            assert_eq!(*start, 1);
        }
        other => panic!("expected a bare initialization, got {:?}", other),
    }
}

#[test]
fn bare_identifier_is_a_term_not_a_reassignment() {
    let block = parse_source("x").unwrap();
    assert_eq!(
        block.expressions[0],
        Expression::Term(Term::Factor(Factor::Leaf(Leaf::Identifier(
            "x".to_string(),
            1
        ))))
    );
}

#[test]
fn reassignment_needs_the_equals_right_after_the_name() {
    let block = parse_source("x = 1.0").unwrap();
    match &block.expressions[0] {
        Expression::Assignment(Assignment::Reassignment(name, _)) => assert_eq!(name, "x"),
        other => panic!("expected a reassignment, got {:?}", other),
    }
}

#[test]
fn nested_block_is_one_statement() {
    let block = parse_source("{\n}").unwrap();
    assert_eq!(block.expressions.len(), 1);
    match &block.expressions[0] {
        Expression::Block(inner) => {
            assert_eq!(inner.expressions.len(), 0);
            assert_eq!(inner.start_index, 1);
        }
        other => panic!("expected a block, got {:?}", other),
    }
}

#[test]
fn statements_after_a_nested_block_are_kept() {
    let block = parse_source("{\n}\n1.0").unwrap();
    assert_eq!(block.expressions.len(), 2);
    assert!(matches!(&block.expressions[0], Expression::Block(_)));
    assert!(matches!(&block.expressions[1], Expression::Term(_)));
}

#[test]
fn blank_lines_between_statements_are_skipped() {
    let block = parse_source("1.0\n\n\n2.0").unwrap();
    assert_eq!(block.expressions.len(), 2);
}

#[test]
fn missing_identifier_after_let() {
    let err = parse_source("let = 1.0").unwrap_err();
    assert_eq!(err.kind, ErrorKind::UnexpectedToken);
    assert_eq!(err.msg, "expected identifier");
    assert_eq!(err.pos.start_pos.index, 4);
    assert_eq!(err.pos.source_len, 1);
}

#[test]
fn missing_colon_in_initialization() {
    let err = parse_source("let x float").unwrap_err();
    assert_eq!(err.kind, ErrorKind::UnexpectedToken);
    assert_eq!(err.msg, "expected ':'");
}

#[test]
fn missing_closing_parenthesis() {
    let err = parse_source("(1.0").unwrap_err();
    assert_eq!(err.kind, ErrorKind::UnexpectedToken);
    assert_eq!(err.msg, "expected ')'");
}

#[test]
fn operator_without_operand_is_rejected() {
    let err = parse_source("1.0 +").unwrap_err();
    assert_eq!(err.kind, ErrorKind::UnexpectedToken);
    assert_eq!(err.msg, "unexpected token");
}

#[test]
fn parse_expects_an_opening_bracket() {
    // A hand-made token stream without the synthetic bracket wrapping is
    // rejected at its first token.
    let tokens = vec![minilang::token::Token {
        kind: minilang::token::TokenKind::FloatLiteral("1.0".to_string()),
        pos: minilang::position::SourceSpan {
            start_pos: minilang::position::SourcePosition { index: 0, line: 0, column: 0 },
            source_len: 3,
        },
    }];
    let err = Parser::new(&tokens).parse().unwrap_err();
    assert_eq!(err.kind, ErrorKind::UnexpectedToken);
    assert_eq!(err.msg, "expected '{'");
}

#[test]
fn multiplicative_operators_nest_to_the_left() {
    // 6.0 / 2.0 % 4.0 parses as Mod(Div(6.0, 2.0), 4.0).
    let block = parse_source("6.0 / 2.0 % 4.0").unwrap();
    let expected = Expression::Term(Term::Factor(Factor::Operation(
        Box::new(Factor::Operation(
            Box::new(Factor::Leaf(Leaf::FloatLiteral("6.0".to_string(), 1))),
            FactorOp::Divide,
            Leaf::FloatLiteral("2.0".to_string(), 3),
        )),
        FactorOp::Modulo,
        Leaf::FloatLiteral("4.0".to_string(), 5),
    )));
    assert_eq!(block.expressions[0], expected);
}

#[test]
fn term_span_runs_from_first_leaf_to_last_leaf() {
    let source = "1.0 + 2.0 * 3.0";
    let tokens = Lexer::new(source).lex().unwrap();
    let block = Parser::new(&tokens).parse().unwrap();
    let term = match &block.expressions[0] {
        Expression::Term(t) => t,
        other => panic!("expected a term, got {:?}", other),
    };
    // Token range: the five tokens between the synthetic brackets.
    assert_eq!(term.pos(), TokenSpan { start: 1, len: 5 });
    // Source range: the whole text, from the first character of `1.0`
    // through the last character of `3.0`.
    let span = term.pos().as_source_span(&tokens);
    assert_eq!(span.start_pos.index, 0);
    assert_eq!(span.source_len, source.len());
}

#[test]
fn assignment_span_covers_let_through_value() {
    let source = "let x: float = 1.0";
    let tokens = Lexer::new(source).lex().unwrap();
    let block = Parser::new(&tokens).parse().unwrap();
    let assig = match &block.expressions[0] {
        Expression::Assignment(a) => a,
        other => panic!("expected an assignment, got {:?}", other),
    };
    assert_eq!(assig.pos(), TokenSpan { start: 1, len: 6 });
    let span = assig.pos().as_source_span(&tokens);
    assert_eq!(span.start_pos.index, 0);
    assert_eq!(span.source_len, source.len());
}
