use rue::analysis::{
    analyze_nodes, delimiters_match, pair_delimiters, Bracket, Delimiter, DelimiterStyle, Mark, NodeKind,
    NodeSummary, NodeToken, TokenFacts, TokenFlags, ABSOLUTE_PATH_START,
    ATTACHED_OPENER, GENERIC, PREFIX_OPERATOR, TRAILING_COMMA,
};
use rue::token_stream::{FormatError, RawClass, RawToken, TokenId, TokenStream};

fn stream_of(texts: &[&str]) -> TokenStream {
    let mut offset = 0;
    let mut raws = Vec::new();
    for text in texts {
        raws.push(RawToken {
            class: RawClass::Significant,
            text: text.to_string(),
            start: offset,
            end: offset + text.len(),
        });
        offset += text.len();
    }
    TokenStream::from_tokens(&raws).unwrap()
}

fn pair_all(texts: &[&str]) -> (Result<(), FormatError>, Vec<TokenFacts>) {
    let stream = stream_of(texts);
    let mut facts = vec![TokenFacts::default(); texts.len()];
    let result = pair_delimiters(&stream, &mut facts);
    (result, facts)
}

fn internal_message(result: Result<(), FormatError>) -> String {
    match result {
        Err(FormatError::Internal(message)) => message,
        other => panic!("unexpected {other:?}"),
    }
}

#[test]
fn flags_accumulate() {
    let mut flags = TokenFlags::default();
    assert!(!flags.contains(TRAILING_COMMA));
    flags.insert(TRAILING_COMMA);
    flags.insert(GENERIC);
    assert!(flags.contains(TRAILING_COMMA));
    assert!(flags.contains(GENERIC));
    assert!(!flags.contains(PREFIX_OPERATOR));
    assert_eq!(flags.0, 3);
}

#[test]
fn facts_report_their_flags() {
    let mut facts = TokenFacts::default();
    assert!(!facts.supports_trailing_comma());
    facts.flags.insert(ATTACHED_OPENER);
    facts.flags.insert(ABSOLUTE_PATH_START);
    assert!(facts.is_attached_opener());
    assert!(facts.is_absolute_path_start());
    assert!(!facts.is_generic());
    assert!(!facts.is_prefix_operator());
    assert!(!facts.supports_trailing_comma());
    assert!(facts.pair.is_none());
}

#[test]
fn nested_delimiters_pair_up() {
    let (result, facts) = pair_all(&["f", "(", "[", "x", "]", ",", "{", "}", ")"]);
    assert!(result.is_ok());
    assert_eq!(facts[1].pair, Some(TokenId::new(8)));
    assert_eq!(facts[2].pair, Some(TokenId::new(4)));
    assert_eq!(facts[6].pair, Some(TokenId::new(7)));
    assert_eq!(facts[0].pair, None);
    assert_eq!(facts[8].pair, None);
}

#[test]
fn closer_without_opener_fails() {
    let (result, _) = pair_all(&["x", ")"]);
    assert_eq!(internal_message(result), "closing delimiter has no opener");
}

#[test]
fn mismatched_closer_fails_after_earlier_pairs() {
    let (result, facts) = pair_all(&["(", ")", "[", "}"]);
    assert_eq!(internal_message(result), "mismatched delimiters in valid syntax");
    assert_eq!(facts[0].pair, Some(TokenId::new(1)));
    assert_eq!(facts[2].pair, None);
}

#[test]
fn unclosed_opener_fails() {
    let (result, facts) = pair_all(&["{", "(", ")"]);
    assert_eq!(internal_message(result), "opening delimiter has no closer");
    assert_eq!(facts[1].pair, Some(TokenId::new(2)));
}

#[test]
fn only_one_character_delimiters_count() {
    let (result, _) = pair_all(&["\"(\"", "((", "x"]);
    assert!(result.is_ok());
}

#[test]
fn delimiters_match_by_shape() {
    assert!(delimiters_match(Delimiter::Open(Bracket::Paren), Delimiter::Close(Bracket::Paren)));
    assert!(!delimiters_match(Delimiter::Open(Bracket::Paren), Delimiter::Close(Bracket::Curly)));
    assert!(!delimiters_match(Delimiter::Close(Bracket::Square), Delimiter::Open(Bracket::Square)));
}

fn marked(start: usize, mark: Mark) -> NodeToken {
    NodeToken { start, mark }
}

fn node(kind: NodeKind, direct: Vec<NodeToken>, significant: Vec<NodeToken>) -> NodeSummary {
    NodeSummary { kind, direct, significant }
}

#[test]
fn nodes_give_their_tokens_roles() {
    // fn f<T, U>(x: T) { ::a::b }
    let texts = ["fn", "f", "<", "T", ",", "U", ">", "(", "x", ":", "T", ")", "{", "::", "a", "::", "b", "}"];
    let stream = stream_of(&texts);
    let starts: Vec<usize> = stream.tokens.iter().map(|t| t.start).collect();
    let mut facts = vec![TokenFacts::default(); texts.len()];
    let generics = node(
        NodeKind::GenericParameters,
        vec![marked(starts[2], Mark::LessThan), marked(starts[4], Mark::Comma), marked(starts[6], Mark::GreaterThan)],
        vec![
            marked(starts[2], Mark::LessThan),
            marked(starts[3], Mark::Other),
            marked(starts[4], Mark::Comma),
            marked(starts[5], Mark::Other),
            marked(starts[6], Mark::GreaterThan),
        ],
    );
    let function = node(
        NodeKind::FunctionItem,
        vec![marked(starts[0], Mark::Other), marked(starts[1], Mark::Other), marked(starts[7], Mark::OpenParen)],
        vec![marked(starts[7], Mark::OpenParen)],
    );
    let block = node(NodeKind::Block, vec![marked(starts[12], Mark::OpenBrace)], vec![marked(starts[12], Mark::OpenBrace)]);
    let path = node(
        NodeKind::PathExpr,
        vec![marked(starts[13], Mark::PathSeparator)],
        vec![marked(starts[13], Mark::PathSeparator), marked(starts[14], Mark::Other)],
    );
    let result = analyze_nodes(&vec![function, generics, block, path], &stream, &mut facts);
    assert!(result.is_ok());
    assert!(facts[7].is_attached_opener());
    assert!(facts[7].supports_trailing_comma());
    assert!(facts[2].is_generic() && facts[4].is_generic() && facts[6].is_generic());
    assert!(!facts[3].is_generic());
    assert!(facts[2].supports_trailing_comma());
    assert_eq!(facts[2].pair, Some(TokenId::new(6)));
    assert_eq!(facts[12].delimiter_style, Some(DelimiterStyle::Block));
    assert!(!facts[12].supports_trailing_comma());
    assert!(facts[13].is_absolute_path_start());
    assert!(!facts[15].is_absolute_path_start());
}

#[test]
fn struct_literals_are_braced_and_take_trailing_commas() {
    let texts = ["P", "{", "x", "}", "-", "y"];
    let stream = stream_of(&texts);
    let starts: Vec<usize> = stream.tokens.iter().map(|t| t.start).collect();
    let mut facts = vec![TokenFacts::default(); texts.len()];
    let literal = node(
        NodeKind::StructInitializerExpr,
        vec![marked(starts[0], Mark::Other), marked(starts[1], Mark::OpenBrace)],
        vec![marked(starts[0], Mark::Other), marked(starts[1], Mark::OpenBrace)],
    );
    let prefix = node(
        NodeKind::PrefixExpr,
        vec![marked(starts[4], Mark::PrefixOperator)],
        vec![marked(starts[4], Mark::PrefixOperator), marked(starts[5], Mark::Other)],
    );
    let other = node(NodeKind::Other, vec![marked(starts[2], Mark::OpenParen)], vec![]);
    assert!(analyze_nodes(&vec![literal, prefix, other], &stream, &mut facts).is_ok());
    assert_eq!(facts[1].delimiter_style, Some(DelimiterStyle::Braced));
    assert!(facts[1].supports_trailing_comma());
    assert!(facts[4].is_prefix_operator());
    assert_eq!(facts[2].flags.0, 0);
}

#[test]
fn a_node_token_off_the_stream_fails_after_the_roles_before_it() {
    let texts = ["(", "a", ")"];
    let stream = stream_of(&texts);
    let mut facts = vec![TokenFacts::default(); texts.len()];
    let list = node(NodeKind::ListExpr, vec![marked(0, Mark::OpenParen)], vec![marked(0, Mark::OpenParen)]);
    let stray = node(NodeKind::PrefixExpr, vec![], vec![marked(99, Mark::PrefixOperator)]);
    let result = analyze_nodes(&vec![list, stray], &stream, &mut facts);
    assert_eq!(
        internal_message(result),
        "syntax token at source offset 99 has no significant token ID"
    );
    assert!(facts[0].supports_trailing_comma());
}
