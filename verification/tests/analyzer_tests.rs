use minilang::analyzer::Analyzer;
use minilang::compile;
use minilang::error::ErrorKind;
use minilang::lexer::Lexer;
use minilang::parser::Parser;
use minilang::symbol_table::SymbolTable;
use minilang::types::Type;

#[test]
fn declare_then_reassign_succeeds_with_type_float() {
    let (_, t) = compile("let x: float = 1.0\nx = 2.0").unwrap();
    assert_eq!(t, Type::Float);
}

#[test]
fn redeclaration_in_same_scope_fails() {
    let err = compile("let x: float = 1.0\nlet x: float = 2.0").unwrap_err();
    assert_eq!(err.kind, ErrorKind::Redeclaration);
    assert_eq!(err.msg, "declaration of previously declared variable \"x\"");
    // The span points at the second declaration.
    assert_eq!(err.pos.start_pos.index, 19);
    assert_eq!(err.pos.start_pos.line, 1);
    assert_eq!(err.pos.source_len, 18);
}

#[test]
fn reassigning_an_undeclared_name_fails() {
    let err = compile("let x: float = 1.0\ny = 2.0").unwrap_err();
    assert_eq!(err.kind, ErrorKind::UndeclaredVariable);
    assert_eq!(err.msg, "use of undeclared variable \"y\"");
    // The span starts at `y`.
    assert_eq!(err.pos.start_pos.index, 19);
}

#[test]
fn referencing_an_undeclared_name_fails() {
    let err = compile("y + 1.0").unwrap_err();
    assert_eq!(err.kind, ErrorKind::UndeclaredVariable);
    assert_eq!(err.msg, "use of undeclared variable \"y\"");
    assert_eq!(err.pos.start_pos.index, 0);
    assert_eq!(err.pos.source_len, 1);
}

#[test]
fn reassignment_to_a_differently_typed_value_fails() {
    // An empty block has type Void, so assigning it to a float variable is
    // a type mismatch.
    let err = compile("let x: float = 1.0\nx = {}").unwrap_err();
    assert_eq!(err.kind, ErrorKind::TypeMismatch);
    assert_eq!(err.msg, "type mismatch");
    assert_eq!(err.pos.start_pos.index, 19);
}

#[test]
fn empty_block_has_type_void() {
    let (_, t) = compile("{ }").unwrap();
    assert_eq!(t, Type::Void);
}

#[test]
fn empty_program_has_type_void() {
    let (_, t) = compile("").unwrap();
    assert_eq!(t, Type::Void);
}

#[test]
fn program_type_is_the_last_statement_type() {
    let (_, t) = compile("let x: float = 1.0\nx + 1.0").unwrap();
    assert_eq!(t, Type::Float);
    let (_, t) = compile("let x: float = 1.0\n{ }").unwrap();
    assert_eq!(t, Type::Void);
}

#[test]
fn analysis_of_the_same_program_twice_gives_the_same_type() {
    let source = "let x: float = 1.0\n{\nlet y: float = x + 1.0\ny * 2.0\n}";
    let r1 = compile(source).unwrap();
    let r2 = compile(source).unwrap();
    assert_eq!(r1, r2);
    assert_eq!(r1.1, Type::Float);
}

#[test]
fn analyzing_one_tree_twice_with_fresh_analyzers_agrees() {
    let tokens = Lexer::new("let x: float = 1.0\nx = 2.0").lex().unwrap();
    let block = Parser::new(&tokens).parse().unwrap();
    let mut first = Analyzer::new(&tokens);
    let mut second = Analyzer::new(&tokens);
    assert_eq!(first.analyze(&block).unwrap(), second.analyze(&block).unwrap());
}

#[test]
fn block_declarations_are_invisible_outside_their_block() {
    let err = compile("{\nlet y: float = 1.0\n}\ny = 1.0").unwrap_err();
    assert_eq!(err.kind, ErrorKind::UndeclaredVariable);
    assert_eq!(err.msg, "use of undeclared variable \"y\"");
}

#[test]
fn inner_scope_may_shadow_an_outer_declaration() {
    let (_, t) = compile("let x: float = 1.0\n{\nlet x: float = 2.0\nx\n}").unwrap();
    assert_eq!(t, Type::Float);
}

#[test]
fn outer_declarations_are_visible_in_inner_blocks() {
    let (_, t) = compile("let x: float = 1.0\n{\nx + 1.0\n}").unwrap();
    assert_eq!(t, Type::Float);
}

#[test]
fn unknown_type_name_is_rejected() {
    let err = compile("let x: int = 1.0").unwrap_err();
    assert_eq!(err.kind, ErrorKind::TypeMismatch);
    assert_eq!(err.msg, "unexpected type");
}

#[test]
fn initializer_must_match_the_declared_type() {
    let err = compile("let x: void = 1.0").unwrap_err();
    assert_eq!(err.kind, ErrorKind::TypeMismatch);
    assert_eq!(err.msg, "type mismatch");
}

#[test]
fn declaration_without_initializer_binds_the_name() {
    let (_, t) = compile("let x: float\nx = 2.0").unwrap();
    assert_eq!(t, Type::Float);
}

#[test]
fn operands_of_different_types_are_rejected() {
    let err = compile("let v: void\nv + 1.0").unwrap_err();
    assert_eq!(err.kind, ErrorKind::TypeMismatch);
    assert_eq!(err.msg, "type mismatch");
}

#[test]
fn void_operands_of_equal_type_are_accepted() {
    // The operator itself imposes no restriction: any pair of equal types
    // passes, Void included.
    let (_, t) = compile("let v: void\nlet w: void\nv + w").unwrap();
    assert_eq!(t, Type::Void);
}

#[test]
fn type_names_resolve_only_float_and_void() {
    assert_eq!(Type::from_name("float"), Some(Type::Float));
    assert_eq!(Type::from_name("void"), Some(Type::Void));
    assert_eq!(Type::from_name("Float"), None);
    assert_eq!(Type::from_name(""), None);
    assert_eq!(Type::from_name("floats"), None);
}

#[test]
fn symbol_table_lookup_falls_through_to_outer_scopes() {
    let mut table = SymbolTable::new();
    assert_eq!(table.get("a"), None);
    assert!(!table.has("a"));
    table.set("a", Type::Float);
    assert_eq!(table.get("a"), Some(Type::Float));
    table.enter_scope();
    // Visible from the inner scope, but not bound in it.
    assert_eq!(table.get("a"), Some(Type::Float));
    assert!(!table.has_in_current("a"));
    table.set("a", Type::Void);
    assert!(table.has_in_current("a"));
    assert_eq!(table.get("a"), Some(Type::Void));
    table.exit_scope();
    assert_eq!(table.get("a"), Some(Type::Float));
}

#[test]
fn child_scope_never_mutates_its_parent() {
    let mut table = SymbolTable::new();
    table.enter_scope();
    table.set("inner", Type::Float);
    assert_eq!(table.get("inner"), Some(Type::Float));
    table.exit_scope();
    assert_eq!(table.get("inner"), None);
}
