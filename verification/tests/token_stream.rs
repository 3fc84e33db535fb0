use rue::token_stream::{
    contains_gap, newline_count, CommentKind, CommentPlacement, FormatError, RawClass, RawToken, TokenId,
    TokenSpan, TokenStream,
};

fn raw(class: RawClass, text: &str, start: usize) -> RawToken {
    RawToken { class, text: text.to_string(), start, end: start + text.len() }
}

/// The raw tokens of a source, split by hand.
fn lex(parts: &[(RawClass, &str)]) -> Vec<RawToken> {
    let mut offset = 0;
    let mut tokens = Vec::new();
    for (class, text) in parts {
        tokens.push(raw(class.clone(), text, offset));
        offset += text.len();
    }
    tokens
}

#[test]
fn token_ids_step_forward() {
    let id = TokenId::new(4);
    assert_eq!(id.index(), 4);
    assert_eq!(id.next(), TokenId::new(5));
    let span = TokenSpan::new(TokenId::new(1), TokenId::new(3));
    assert_eq!(span.start, TokenId::new(1));
    assert_eq!(span.end, TokenId::new(3));
}

#[test]
fn newline_count_counts_each_line_ending_once() {
    assert_eq!(newline_count(""), 0);
    assert_eq!(newline_count("a\nb\n"), 2);
    assert_eq!(newline_count("\r\n"), 1);
    assert_eq!(newline_count("\r"), 1);
    assert_eq!(newline_count("\r\r\n\n"), 3);
    assert_eq!(newline_count("  "), 0);
}

#[test]
fn contains_gap_is_strictly_inside() {
    let span = TokenSpan::new(TokenId::new(2), TokenId::new(5));
    assert!(!contains_gap(span, 2));
    assert!(contains_gap(span, 3));
    assert!(contains_gap(span, 4));
    assert!(!contains_gap(span, 5));
}

#[test]
fn scanning_places_trailing_and_leading_comments() {
    let raws = lex(&[
        (RawClass::Significant, "a"),
        (RawClass::Whitespace, " "),
        (RawClass::LineComment, "// note\n"),
        (RawClass::Whitespace, "\n"),
        (RawClass::LineComment, "// doc\n"),
        (RawClass::Significant, "b"),
        (RawClass::Whitespace, " "),
        (RawClass::BlockComment, "/* x\n y */"),
        (RawClass::Whitespace, "\n\n"),
    ]);
    let stream = TokenStream::from_tokens(&raws).unwrap();
    assert_eq!(stream.len(), 2);
    assert_eq!(stream.tokens[0].text, "a");
    assert_eq!(stream.tokens[1].text, "b");
    assert_eq!(stream.tokens[1].start, 18);
    assert_eq!(stream.comment_count, 3);
    assert_eq!(stream.gaps.len(), 3);

    assert!(stream.gaps[0].comments.is_empty());
    assert_eq!(stream.gaps[0].newlines, 0);

    let middle = stream.gap_before(TokenId::new(1));
    assert_eq!(middle.comments.len(), 2);
    assert_eq!(middle.comments[0].text, "// note");
    assert_eq!(middle.comments[0].kind, CommentKind::Line);
    assert_eq!(middle.comments[0].placement, CommentPlacement::Trailing);
    assert_eq!(middle.comments[0].newlines_before, 0);
    assert_eq!(middle.comments[1].text, "// doc");
    assert_eq!(middle.comments[1].placement, CommentPlacement::Leading);
    assert_eq!(middle.comments[1].newlines_before, 2);
    assert_eq!(middle.newlines, 1);

    let last = &stream.gaps[2];
    assert_eq!(last.comments.len(), 1);
    assert_eq!(last.comments[0].text, "/* x\n y */");
    assert_eq!(last.comments[0].kind, CommentKind::Block);
    assert!(last.comments[0].multiline);
    assert_eq!(last.comments[0].placement, CommentPlacement::Trailing);
    assert_eq!(last.newlines, 2);

    assert_eq!(stream.token(TokenId::new(0)).text, "a");
    assert_eq!(stream.token_id_at_offset(0).unwrap(), TokenId::new(0));
    assert_eq!(stream.token_id_at_offset(18).unwrap(), TokenId::new(1));
}

#[test]
fn line_comment_drops_its_line_ending() {
    let raws = lex(&[(RawClass::LineComment, "// crlf\r\n"), (RawClass::Significant, "x")]);
    let stream = TokenStream::from_tokens(&raws).unwrap();
    assert_eq!(stream.gaps[0].comments[0].text, "// crlf");
    assert_eq!(stream.gaps[0].comments[0].placement, CommentPlacement::Leading);
    assert_eq!(stream.gaps[0].newlines, 1);
}

#[test]
fn missing_offset_is_an_internal_error() {
    let raws = lex(&[(RawClass::Significant, "abc")]);
    let stream = TokenStream::from_tokens(&raws).unwrap();
    match stream.token_id_at_offset(1) {
        Err(FormatError::Internal(message)) => {
            assert_eq!(message, "syntax token at source offset 1 has no significant token ID")
        }
        other => panic!("unexpected {other:?}"),
    }
}

#[test]
fn out_of_order_tokens_are_refused() {
    let raws = vec![raw(RawClass::Significant, "ab", 0), raw(RawClass::Significant, "c", 1)];
    match TokenStream::from_tokens(&raws) {
        Err(FormatError::TokenOrder { previous_end, next_start }) => {
            assert_eq!(previous_end, 2);
            assert_eq!(next_start, 1);
        }
        other => panic!("unexpected {other:?}"),
    }
}

#[test]
fn unknown_trivia_is_refused() {
    let raws = lex(&[
        (RawClass::Significant, "a"),
        (RawClass::OtherTrivia("Shebang".to_string()), "#!x"),
    ]);
    match TokenStream::from_tokens(&raws) {
        Err(FormatError::UnsupportedTrivia(name)) => assert_eq!(name, "Shebang"),
        other => panic!("unexpected {other:?}"),
    }
}

#[test]
fn empty_source_has_one_gap() {
    let stream = TokenStream::from_tokens(&Vec::new()).unwrap();
    assert_eq!(stream.len(), 0);
    assert_eq!(stream.gaps.len(), 1);
    assert_eq!(stream.comment_count, 0);
}

#[test]
fn comment_count_equals_the_comments_in_gaps() {
    let raws = lex(&[
        (RawClass::LineComment, "// a\n"),
        (RawClass::Significant, "x"),
        (RawClass::Whitespace, " "),
        (RawClass::BlockComment, "/* b */"),
        (RawClass::Significant, "y"),
        (RawClass::LineComment, "// c\n"),
    ]);
    let stream = TokenStream::from_tokens(&raws).unwrap();
    let held: usize = stream.gaps.iter().map(|gap| gap.comments.len()).sum();
    assert_eq!(stream.comment_count, held);
    assert_eq!(held, 3);
    let texts: Vec<&str> = stream.tokens.iter().map(|token| token.text.as_str()).collect();
    assert_eq!(texts, ["x", "y"]);
}
