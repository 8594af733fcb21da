use rlox::ast::nodes::{BinaryOperator, Expr, Literal, UnaryOperator};
use rlox::ast::ASTPrinter;
use rlox::tokens::{Token, TokenType};

#[test]
fn printer_renders_sample_tree_fully_parenthesized() {
    let tree = Expr::Binary(
        Box::new(Expr::Unary(
            Token::create(TokenType::Minus, "-".to_string(), 1),
            Box::new(Expr::Literal(Literal::Number("123".to_string()))),
        )),
        Token::create(TokenType::Star, "*".to_string(), 1),
        Box::new(Expr::Grouping(Box::new(Expr::Literal(Literal::Number(
            "45.67".to_string(),
        ))))),
    );
    let printer = ASTPrinter::create();
    assert_eq!(printer.print(&tree), "(* (- 123) (group 45.67))");
}

#[test]
fn literals_render_their_own_text() {
    let printer = ASTPrinter::create();
    assert_eq!(
        printer.print(&Expr::Literal(Literal::String("hi".to_string()))),
        "hi"
    );
    assert_eq!(
        printer.print(&Expr::Literal(Literal::Number("7".to_string()))),
        "7"
    );
    assert_eq!(printer.print(&Expr::Literal(Literal::True)), "true");
    assert_eq!(printer.print(&Expr::Literal(Literal::False)), "false");
    assert_eq!(printer.print(&Expr::Literal(Literal::Nil)), "nil");
}

#[test]
fn grouping_renders_with_group_head() {
    let printer = ASTPrinter::create();
    let tree = Expr::Grouping(Box::new(Expr::Literal(Literal::Nil)));
    assert_eq!(printer.print(&tree), "(group nil)");
}

#[test]
fn parenthesize_joins_parts_with_spaces() {
    let printer = ASTPrinter::create();
    let parts = vec!["a".to_string(), "b".to_string()];
    assert_eq!(printer.parenthesize(&"op".to_string(), &parts), "(op a b)");
    let none: Vec<String> = Vec::new();
    assert_eq!(printer.parenthesize(&"op".to_string(), &none), "(op)");
}

#[test]
fn unary_operator_decodes_bang_and_minus_only() {
    assert_eq!(
        UnaryOperator::try_from("!".to_string()),
        Ok(UnaryOperator::Bang)
    );
    assert_eq!(
        UnaryOperator::try_from("-".to_string()),
        Ok(UnaryOperator::Minus)
    );
    assert_eq!(
        UnaryOperator::try_from("==".to_string()),
        Err("==".to_string())
    );
    assert_eq!(
        UnaryOperator::try_from("!=".to_string()),
        Err("!=".to_string())
    );
}

#[test]
fn binary_operator_decodes_all_ten_lexemes() {
    let cases = [
        ("==", BinaryOperator::EqualEqual),
        ("!=", BinaryOperator::BangEqual),
        ("<", BinaryOperator::Less),
        ("<=", BinaryOperator::LessEqual),
        (">", BinaryOperator::Greater),
        (">=", BinaryOperator::GreaterEqual),
        ("+", BinaryOperator::Plus),
        ("-", BinaryOperator::Minus),
        ("*", BinaryOperator::Star),
        ("/", BinaryOperator::Slash),
    ];
    for (text, want) in cases {
        assert_eq!(BinaryOperator::try_from(text.to_string()), Ok(want));
    }
}

#[test]
fn binary_operator_error_carries_the_offending_text() {
    assert_eq!(
        BinaryOperator::try_from("&&".to_string()),
        Err("&&".to_string())
    );
    assert_eq!(BinaryOperator::try_from("".to_string()), Err("".to_string()));
}

#[test]
fn nested_unary_renders_inside_out() {
    let printer = ASTPrinter::create();
    let tree = Expr::Unary(
        Token::create(TokenType::Bang, "!".to_string(), 1),
        Box::new(Expr::Unary(
            Token::create(TokenType::Minus, "-".to_string(), 1),
            Box::new(Expr::Literal(Literal::Number("1".to_string()))),
        )),
    );
    assert_eq!(printer.print(&tree), "(! (- 1))");
}
