use circuit::ast::{ConnectionDirection, ConstExprOpType, Node, NodeType, PinDirection, PinExprOpType};
use circuit::diagnostics::Diagnostics;
use circuit::parser::{Parser, ParserResult};
use circuit::tokeniser::{PunctuationType, TokenType, Tokeniser, TokeniserResult};
use circuit::util::Pos;
use circuit::util::Interner;

const ROOT_MODULE: usize = 0;

fn tokenise(text: &str, interner: &mut Interner) -> TokeniserResult {
    match Tokeniser::new(ROOT_MODULE, text).tokenise(interner) {
        Ok(tokens) => tokens,
        Err(_) => panic!("the text should tokenise"),
    }
}

fn parse(text: &str) -> Result<ParserResult, Diagnostics> {
    let mut interner = Interner::new();
    let tokens = tokenise(text, &mut interner);
    Parser::new(ROOT_MODULE, tokens.tokens()).parse()
}

fn parse_ok(text: &str) -> Vec<Node> {
    match parse(text) {
        Ok(result) => result.ast.into_nodes(),
        Err(d) => panic!("unexpected errors: {:?}", d.iter().iter().map(|d| d.message().to_string()).collect::<Vec<_>>()),
    }
}

fn parse_errors(text: &str) -> Vec<String> {
    match parse(text) {
        Ok(_) => panic!("the text should not parse"),
        Err(d) => d.iter().iter().map(|d| d.message().to_string()).collect(),
    }
}

fn constexpr(text: &str) -> Node {
    let mut interner = Interner::new();
    let tokens = tokenise(text, &mut interner);
    let mut parser = Parser::new(ROOT_MODULE, tokens.tokens());
    match parser.parse_constexpr() {
        Ok(node) => node,
        Err(e) => panic!("the expression should parse: {e:?}"),
    }
}

#[test]
fn parse_constexpr() {
    let module = ROOT_MODULE;
    let mut interner = Interner::new();
    let tokens = tokenise("-!xyz:Enum:N + 5", &mut interner);
    let constexpr_node = Parser::new(module, tokens.tokens()).parse_constexpr();
    println!("{constexpr_node:#?}");
}

#[test]
fn multiplication_binds_tighter_than_addition() {
    let node = constexpr("1 + 2 * 3;");
    let NodeType::ConstExpr { lhs: Some(lhs), op: ConstExprOpType::Add, rhs: Some(rhs) } = node.node_type else {
        panic!("expected an addition, got {:?}", node.node_type);
    };
    assert!(matches!(lhs.node_type, NodeType::Integer(1)));
    let NodeType::ConstExpr { lhs: Some(a), op: ConstExprOpType::Mul, rhs: Some(b) } = rhs.node_type else {
        panic!("expected a product");
    };
    assert!(matches!(a.node_type, NodeType::Integer(2)));
    assert!(matches!(b.node_type, NodeType::Integer(3)));
}

#[test]
fn subtraction_is_left_associative() {
    let node = constexpr("7 - 2 - 1;");
    let NodeType::ConstExpr { lhs: Some(lhs), op: ConstExprOpType::Sub, rhs: Some(rhs) } = node.node_type else {
        panic!("expected a subtraction");
    };
    assert!(matches!(rhs.node_type, NodeType::Integer(1)));
    assert!(matches!(lhs.node_type, NodeType::ConstExpr { op: ConstExprOpType::Sub, .. }));
}

#[test]
fn leading_minus_is_unary() {
    let node = constexpr("-x;");
    let NodeType::ConstExpr { lhs: None, op: ConstExprOpType::UnaryMinus, rhs: Some(rhs) } = node.node_type else {
        panic!("expected a negation");
    };
    assert!(matches!(rhs.node_type, NodeType::Path(ref p) if p.len() == 1));
}

#[test]
fn range_takes_its_nearer_operand_first() {
    let node = constexpr("1..5;");
    let NodeType::ConstExpr { lhs: Some(lhs), op: ConstExprOpType::Range, rhs: Some(rhs) } = node.node_type else {
        panic!("expected a range");
    };
    assert!(matches!(lhs.node_type, NodeType::Integer(5)));
    assert!(matches!(rhs.node_type, NodeType::Integer(1)));
}

#[test]
fn circuit_with_pins_and_a_connection() {
    let nodes = parse_ok("circ main { -> a, b[2]; <- c; c <- a; }");
    assert_eq!(nodes.len(), 1);
    let NodeType::Circ { args, children, .. } = &nodes[0].node_type else {
        panic!("expected a circuit");
    };
    assert!(args.is_empty());
    assert_eq!(children.len(), 3);
    let NodeType::Statement(first) = &children[0].node_type else { panic!("expected a statement") };
    let NodeType::PinDecls { direction, decls } = &first.node_type else { panic!("expected pin declarations") };
    assert_eq!(*direction, PinDirection::Input);
    assert_eq!(decls.len(), 2);
    assert!(matches!(decls[1].node_type, NodeType::Decl { count: Some(_), .. }));
    let NodeType::Statement(second) = &children[1].node_type else { panic!("expected a statement") };
    assert!(matches!(second.node_type, NodeType::PinDecls { direction: PinDirection::Output, .. }));
    let NodeType::Statement(third) = &children[2].node_type else { panic!("expected a statement") };
    assert!(matches!(third.node_type, NodeType::Connection { direction: ConnectionDirection::RightToLeft, .. }));
}

#[test]
fn circuit_arguments_and_defaults() {
    let nodes = parse_ok("circ adder(bits n = 4, bits m) { }");
    let NodeType::Circ { args, children, .. } = &nodes[0].node_type else {
        panic!("expected a circuit");
    };
    assert_eq!(args.len(), 2);
    assert!(children.is_empty());
    assert!(matches!(args[0].node_type, NodeType::CircArg { default: Some(_), .. }));
    assert!(matches!(args[1].node_type, NodeType::CircArg { default: None, .. }));
}

#[test]
fn module_items_keep_their_order() {
    let nodes = parse_ok("import x; use a:b as c; const bits n = 3; enum E { A, B }");
    assert_eq!(nodes.len(), 4);
    assert!(matches!(nodes[0].node_type, NodeType::Import(_)));
    assert!(matches!(nodes[1].node_type, NodeType::Use { as_name: Some(_), .. }));
    assert!(matches!(nodes[2].node_type, NodeType::ConstDecl { .. }));
    let NodeType::Enum { variants, .. } = &nodes[3].node_type else { panic!("expected an enum") };
    assert_eq!(variants.len(), 2);
}

#[test]
fn if_with_else_branch() {
    let nodes = parse_ok("if 1 { import a; } else { import b; import c; }");
    assert_eq!(nodes.len(), 1);
    let NodeType::If { body, else_body, .. } = &nodes[0].node_type else { panic!("expected an if") };
    assert_eq!(body.len(), 1);
    assert_eq!(else_body.len(), 2);
}

#[test]
fn empty_module_parses_to_nothing() {
    assert!(parse_ok("").is_empty());
}

#[test]
fn with_block_declares_components() {
    let nodes = parse_ok("circ m { with { and(2) g; or h[3] } }");
    let NodeType::Circ { children, .. } = &nodes[0].node_type else { panic!("expected a circuit") };
    let NodeType::Statement(st) = &children[0].node_type else { panic!("expected a statement") };
    let NodeType::With(decls) = &st.node_type else { panic!("expected a with block") };
    assert_eq!(decls.len(), 2);
    let NodeType::Decls { ty, .. } = &decls[0].node_type else { panic!("expected declarations") };
    assert!(matches!(ty.node_type, NodeType::Type { ref args, .. } if args.len() == 1));
}

#[test]
fn tokens_after_a_variant_are_skipped_to_the_separator() {
    let nodes = parse_ok("enum E { a b, c }");
    let NodeType::Enum { variants, .. } = &nodes[0].node_type else { panic!("expected an enum") };
    assert_eq!(variants.len(), 2);
}

#[test]
fn missing_separator_in_enum_is_reported() {
    assert_eq!(
        parse_errors("enum E { a import x; }"),
        vec![
            "expected ',', got 'import'".to_string(),
            "expected 'assert', 'circ', 'const', 'enum', 'import', 'if' or 'use', got '}'".to_string(),
        ]
    );
}

#[test]
fn missing_circuit_name_is_reported() {
    assert_eq!(parse_errors("circ { }"), vec!["expected identifier, got '{'".to_string()]);
}

#[test]
fn bad_statement_lists_what_was_expected() {
    assert_eq!(
        parse_errors("circ m { 5; }"),
        vec!["expected 'assert', 'const', 'for', 'with', 'if', '<-', '->' or identifier, got 'integer literal'".to_string()]
    );
}

#[test]
fn unexpected_end_of_file_is_reported() {
    assert_eq!(parse_errors("circ main {"), vec!["unexpected end of file".to_string()]);
}

#[test]
fn bad_item_recovers_at_next_item() {
    let errors = parse_errors("} import a;");
    assert_eq!(
        errors,
        vec!["expected 'assert', 'circ', 'const', 'enum', 'import', 'if' or 'use', got '}'".to_string()]
    );
}

#[test]
fn unclosed_parenthesis_is_reported() {
    let mut interner = Interner::new();
    let tokens = tokenise("(1;", &mut interner);
    let mut parser = Parser::new(ROOT_MODULE, tokens.tokens());
    let node = parser.parse_constexpr();
    assert!(matches!(node, Ok(Node { node_type: NodeType::Integer(1), .. })));
    let messages: Vec<String> = parser.diagnostics().iter().iter().map(|d| d.message().to_string()).collect();
    assert_eq!(messages, vec!["'(' was not closed".to_string()]);
}

#[test]
fn for_statement_is_reported_and_skipped() {
    assert_eq!(
        parse_errors("circ m { for x; a -> b; }"),
        vec!["'for' statements are not supported".to_string()]
    );
}

#[test]
fn for_outside_a_circuit_is_a_syntax_error() {
    assert_eq!(
        parse_errors("for x;"),
        vec!["expected 'assert', 'circ', 'const', 'enum', 'import', 'if' or 'use', got 'for'".to_string()]
    );
}

#[test]
fn tokenise_takes_the_longest_punctuation() {
    let mut interner = Interner::new();
    let result = tokenise("x==1", &mut interner);
    let x = interner.intern("x".to_string());
    assert!(result.diagnostics.iter().is_empty());
    assert_eq!(result.tokens.len(), 3);
    assert_eq!(result.tokens[0].pos, Pos::new(0, 0, 0, 0, 1));
    assert!(matches!(result.tokens[0].token, TokenType::Ident(id) if id == x));
    assert_eq!(result.tokens[1].pos, Pos::new(0, 0, 1, 1, 2));
    assert!(matches!(result.tokens[1].token, TokenType::Punctuation(PunctuationType::DEqual)));
    assert_eq!(result.tokens[2].pos, Pos::new(0, 0, 3, 3, 1));
    assert!(matches!(result.tokens[2].token, TokenType::Integer(1)));
}

#[test]
fn tokenise_skips_unicode_whitespace() {
    let mut interner = Interner::new();
    let result = tokenise("a\u{3000}b\u{2028}\tc", &mut interner);
    assert_eq!(result.tokens.len(), 3);
}

#[test]
fn tokenise_reports_an_unreadable_token() {
    let mut interner = Interner::new();
    let r = Tokeniser::new(ROOT_MODULE, "a 1x b").tokenise(&mut interner);
    let Err(d) = r else { panic!("the text should not tokenise") };
    assert_eq!(d.iter().len(), 1);
}

#[test]
fn dotted_pin_names_nest_to_the_left() {
    let nodes = parse_ok("circ main { a.b.c <- d; }");
    let NodeType::Circ { children, .. } = &nodes[0].node_type else { panic!("expected a circuit") };
    let NodeType::Statement(s) = &children[0].node_type else { panic!("expected a statement") };
    let NodeType::Connection { lhs, .. } = &s.node_type else { panic!("expected a connection") };
    let NodeType::PinExpr { lhs: Some(inner), op: PinExprOpType::GetChild, rhs } = &lhs.node_type else {
        panic!("expected a child access, got {:?}", lhs.node_type);
    };
    assert!(matches!(rhs.node_type, NodeType::Identifier(_)));
    assert!(matches!(
        inner.node_type,
        NodeType::PinExpr { lhs: Some(_), op: PinExprOpType::GetChild, .. }
    ));
    assert_eq!(lhs.pos.start(), Some(12));
}

#[test]
fn equal_precedence_operators_apply_from_the_left() {
    let node = constexpr("8 / 2 * 3;");
    let NodeType::ConstExpr { lhs: Some(lhs), op: ConstExprOpType::Mul, rhs: Some(rhs) } = node.node_type else {
        panic!("expected a multiplication, got {:?}", node.node_type);
    };
    assert!(matches!(rhs.node_type, NodeType::Integer(3)));
    assert!(matches!(lhs.node_type, NodeType::ConstExpr { op: ConstExprOpType::Div, .. }));
    assert_eq!(node.pos.start(), Some(0));
}

#[test]
fn mixed_precedences_split_at_the_loosest_operator() {
    let node = constexpr("1 * 2 + 3 * 4 - 5;");
    let NodeType::ConstExpr { lhs: Some(lhs), op: ConstExprOpType::Sub, rhs: Some(rhs) } = node.node_type else {
        panic!("expected a subtraction at the root, got {:?}", node.node_type);
    };
    assert!(matches!(rhs.node_type, NodeType::Integer(5)));
    let NodeType::ConstExpr { lhs: Some(sum_lhs), op: ConstExprOpType::Add, rhs: Some(sum_rhs) } = lhs.node_type else {
        panic!("expected an addition, got {:?}", lhs.node_type);
    };
    assert!(matches!(sum_lhs.node_type, NodeType::ConstExpr { op: ConstExprOpType::Mul, .. }));
    assert!(matches!(sum_rhs.node_type, NodeType::ConstExpr { op: ConstExprOpType::Mul, .. }));
}

#[test]
fn tokenise_reports_each_unreadable_token_once() {
    let mut interner = Interner::new();
    let r = Tokeniser::new(ROOT_MODULE, "1x = 2y; 3").tokenise(&mut interner);
    let Err(d) = r else { panic!("the text should not tokenise") };
    assert_eq!(d.iter().len(), 2);
}

#[test]
fn imports_and_integer_assertions_parse_in_order() {
    let nodes = parse_ok("import a; assert 1 + 2 * 3; import b;");
    assert_eq!(nodes.len(), 3);
    assert!(matches!(nodes[0].node_type, NodeType::Import(_)));
    let NodeType::Assert(e) = &nodes[1].node_type else { panic!("expected an assertion") };
    let NodeType::ConstExpr { op: ConstExprOpType::Add, rhs: Some(rhs), .. } = &e.node_type else {
        panic!("expected a sum, got {:?}", e.node_type)
    };
    assert!(matches!(rhs.node_type, NodeType::ConstExpr { op: ConstExprOpType::Mul, .. }));
    assert!(matches!(nodes[2].node_type, NodeType::Import(_)));
}

#[test]
fn an_indexed_pin_reads_the_index_as_its_right_operand() {
    let nodes = parse_ok("circ main { a[1 + 2] <- b; }");
    let NodeType::Circ { children, .. } = &nodes[0].node_type else { panic!("expected a circuit") };
    let NodeType::Statement(s) = &children[0].node_type else { panic!("expected a statement") };
    let NodeType::Connection { lhs, .. } = &s.node_type else { panic!("expected a connection") };
    let NodeType::PinExpr { lhs: Some(name), op: PinExprOpType::Index, rhs } = &lhs.node_type else {
        panic!("expected an index, got {:?}", lhs.node_type);
    };
    assert!(matches!(name.node_type, NodeType::Identifier(_)));
    assert!(matches!(rhs.node_type, NodeType::ConstExpr { op: ConstExprOpType::Add, .. }));
}

#[test]
fn an_integer_range_holds_its_operands_last_read_first() {
    let node = constexpr("1 + 1 .. 3;");
    let NodeType::ConstExpr { lhs: Some(lhs), op: ConstExprOpType::Range, rhs: Some(rhs) } = &node.node_type else {
        panic!("expected a range, got {:?}", node.node_type)
    };
    assert!(matches!(lhs.node_type, NodeType::Integer(3)));
    assert!(matches!(rhs.node_type, NodeType::ConstExpr { op: ConstExprOpType::Add, .. }));
}

#[test]
fn an_indexed_dotted_path_indexes_the_whole_path() {
    let nodes = parse_ok("circ main { a.b[0..3] <- c; }");
    let NodeType::Circ { children, .. } = &nodes[0].node_type else { panic!("expected a circuit") };
    let NodeType::Statement(s) = &children[0].node_type else { panic!("expected a statement") };
    let NodeType::Connection { lhs, .. } = &s.node_type else { panic!("expected a connection") };
    let NodeType::PinExpr { lhs: Some(path), op: PinExprOpType::Index, rhs } = &lhs.node_type else {
        panic!("expected an index, got {:?}", lhs.node_type);
    };
    assert!(matches!(path.node_type, NodeType::PinExpr { op: PinExprOpType::GetChild, .. }));
    assert!(matches!(rhs.node_type, NodeType::ConstExpr { op: ConstExprOpType::Range, .. }));
}
