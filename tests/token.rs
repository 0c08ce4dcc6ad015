use irgen::node::Node;
use irgen::token::{
    Arithmetic, BlockBrace, Comparison, ControlStructure, ExprSymbol, Parentheses, Token, Value,
};

#[test]
fn classify_every_lexeme() {
    let table = vec![
        ("+", Token::arith(Arithmetic::Add)),
        ("-", Token::arith(Arithmetic::Sub)),
        ("*", Token::arith(Arithmetic::Mul)),
        ("/", Token::arith(Arithmetic::Div)),
        ("(", Token::paren(Parentheses::L)),
        (")", Token::paren(Parentheses::R)),
        ("{", Token::block(BlockBrace::L)),
        ("}", Token::block(BlockBrace::R)),
        ("==", Token::comp(Comparison::Eq)),
        ("!=", Token::comp(Comparison::Neq)),
        ("<", Token::comp(Comparison::Lt)),
        ("<=", Token::comp(Comparison::Le)),
        (">", Token::comp(Comparison::Gt)),
        (">=", Token::comp(Comparison::Ge)),
        ("=", Token::assign()),
        (";", Token::stop()),
        (",", Token::comma()),
        ("if", Token::ctrl(ControlStructure::If)),
        ("else", Token::ctrl(ControlStructure::Else)),
        ("while", Token::ctrl(ControlStructure::While)),
        ("for", Token::ctrl(ControlStructure::For)),
        ("return", Token::ctrl(ControlStructure::Return)),
    ];
    assert_eq!(table.len(), 22);
    for (lexeme, token) in table {
        assert_eq!(Token::classify(lexeme), Some(token.clone()));
        assert_eq!(Token::classify(lexeme), Some(token));
    }
}

#[test]
fn classify_rejects_other_strings() {
    for s in ["", "x", "++", "=<", "iff", "If", "returns", " +", "42", "!"] {
        assert_eq!(Token::classify(s), None);
    }
}

#[test]
fn token_helpers_build_variants() {
    assert_eq!(Token::number(7), Token::Value(Value::Number(7)));
    assert_eq!(Token::ident("abc"), Token::Value(Value::Ident("abc".to_string())));
    assert_eq!(Token::stop(), Token::ExprSymbol(ExprSymbol::Stop));
    assert_eq!(Token::ctrl(ControlStructure::Else), Token::ControlStructure(ControlStructure::Else));
}

#[test]
fn node_helpers_build_variants() {
    let n = Node::expr(ExprSymbol::Assignment, Node::value(Value::Number(1)), Node::value(Value::Number(2)));
    match *n {
        Node::Expr(e) => {
            assert_eq!(e.op, ExprSymbol::Assignment);
            assert_eq!(*e.lhs, Node::Value(Value::Number(1)));
        }
        _ => panic!("not an expression"),
    }
    let p = Node::program(vec![Node::value(Value::Number(3))]);
    match *p {
        Node::Program(p) => assert_eq!(p.statements.len(), 1),
        _ => panic!("not a program"),
    }
}
