use expr_parse::ast::{AstNode, BinOp};
use expr_parse::token::{Precedence, Token};
use expr_parse::tree::Node;

#[test]
fn precedence_order_none_add_mul() {
    assert!(Precedence::AddLevel.is_at_least(Precedence::AddLevel));
    assert!(Precedence::MulLevel.is_at_least(Precedence::AddLevel));
    assert!(!Precedence::NoneLevel.is_at_least(Precedence::AddLevel));
    assert!(Precedence::MulLevel.is_higher_than(Precedence::AddLevel));
    assert!(Precedence::AddLevel.is_higher_than(Precedence::NoneLevel));
    assert!(!Precedence::AddLevel.is_higher_than(Precedence::AddLevel));
    assert!(!Precedence::AddLevel.is_higher_than(Precedence::MulLevel));
}

#[test]
fn token_precedences() {
    assert_eq!(Token::Plus.precedence(), Precedence::AddLevel);
    assert_eq!(Token::Minus.precedence(), Precedence::AddLevel);
    assert_eq!(Token::Times.precedence(), Precedence::MulLevel);
    assert_eq!(Token::Divide.precedence(), Precedence::MulLevel);
    assert_eq!(Token::Modulo.precedence(), Precedence::MulLevel);
    assert_eq!(Token::Eof.precedence(), Precedence::NoneLevel);
    assert_eq!(Token::LParen.precedence(), Precedence::NoneLevel);
    assert_eq!(Token::RParen.precedence(), Precedence::NoneLevel);
    assert_eq!(Token::Id(String::from("x")).precedence(), Precedence::NoneLevel);
    assert_eq!(Token::NumLit(1).precedence(), Precedence::NoneLevel);
}

#[test]
fn operator_tokens_map_to_their_kinds() {
    assert_eq!(Token::Plus.to_binop(), BinOp::Add);
    assert_eq!(Token::Minus.to_binop(), BinOp::Sub);
    assert_eq!(Token::Times.to_binop(), BinOp::Mul);
    assert_eq!(Token::Divide.to_binop(), BinOp::Div);
    assert_eq!(Token::Modulo.to_binop(), BinOp::Mod);
}

#[test]
fn kinds_map_back_to_their_tokens() {
    assert_eq!(BinOp::Add.to_token(), Token::Plus);
    assert_eq!(BinOp::Sub.to_token(), Token::Minus);
    assert_eq!(BinOp::Mul.to_token(), Token::Times);
    assert_eq!(BinOp::Div.to_token(), Token::Divide);
    assert_eq!(BinOp::Mod.to_token(), Token::Modulo);
}

#[test]
fn tokens_clone_deeply() {
    let t = Token::Id(String::from("abc"));
    assert_eq!(t.clone(), t);
    let n = Token::NumLit(5);
    assert_eq!(n.clone(), n);
}

#[test]
fn binary_rendering_lists_operator_between_children() {
    let tree = AstNode::bin(AstNode::num(1), BinOp::Add, AstNode::num(2));
    assert_eq!(
        tree.to_tokens(),
        vec![
            Token::LParen,
            Token::NumLit(1),
            Token::Plus,
            Token::NumLit(2),
            Token::RParen,
        ]
    );
}

#[test]
fn call_rendering_wraps_callee_and_argument() {
    let tree = AstNode::call(AstNode::id(String::from("f")), AstNode::num(1));
    assert_eq!(
        tree.to_tokens(),
        vec![
            Token::LParen,
            Token::Id(String::from("f")),
            Token::LParen,
            Token::NumLit(1),
            Token::RParen,
            Token::RParen,
        ]
    );
}

#[test]
fn new_node_has_no_children() {
    let mut a = Node::new(5);
    assert!(a.left.is_none());
    assert!(a.right.is_none());
    assert_eq!(a.value, 5);
    a.left = Some(Node::new(2));
    a.right = Some(Node::new(7));
    assert_eq!(a.left.as_ref().unwrap().value, 2);
    assert_eq!(a.right.as_ref().unwrap().value, 7);
}
