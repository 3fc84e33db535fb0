use rue::token_kind::TokenKind;

#[test]
fn trivia_kinds_are_whitespace_and_comments() {
    assert!(TokenKind::Whitespace.is_trivia());
    assert!(TokenKind::LineComment.is_trivia());
    assert!(TokenKind::BlockComment { is_terminated: false }.is_trivia());
    assert!(!TokenKind::Ident.is_trivia());
    assert!(!TokenKind::OpenParen.is_trivia());
    assert!(!TokenKind::Error.is_trivia());
}
