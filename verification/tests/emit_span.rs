use rue::analysis::{pair_delimiters, DelimiterStyle, Layout, TokenFacts, ATTACHED_OPENER, TRAILING_COMMA};
use rue::emit::Formatter;
use rue::ordering::{DocumentItem, DocumentPlan};
use rue::renderer::{render, FormatOptions};
use rue::token_stream::{FormatError, Gap, RawClass, RawToken, TokenId, TokenSpan, TokenStream};

fn stream_of(texts: &[&str]) -> TokenStream {
    let mut offset = 0;
    let mut raws = Vec::new();
    for text in texts {
        raws.push(RawToken {
            class: RawClass::Significant,
            text: text.to_string(),
            start: offset,
            end: offset + text.len(),
        });
        offset += text.len();
    }
    TokenStream::from_tokens(&raws).unwrap()
}

fn empty_gap() -> Gap {
    Gap { comments: Vec::new(), newlines: 0 }
}

fn item(start: usize, end: usize) -> DocumentItem {
    DocumentItem {
        span: TokenSpan { start: TokenId(start), end: TokenId(end) },
        import_group: None,
        compact_group: None,
        leading: empty_gap(),
        trailing: empty_gap(),
        identity_key: String::new(),
        sort_key: String::new(),
        original_index: 0,
    }
}

fn call_layout(stream: &TokenStream, items: Vec<DocumentItem>) -> Layout {
    let mut facts = vec![TokenFacts::default(); stream.tokens.len()];
    pair_delimiters(stream, &mut facts).unwrap();
    facts[1].flags.insert(ATTACHED_OPENER | TRAILING_COMMA);
    Layout {
        facts,
        document: DocumentPlan { header: empty_gap(), items, footer: empty_gap() },
        import_groups: Vec::new(),
    }
}

#[test]
fn a_call_formats_on_one_line_when_it_fits() {
    let stream = stream_of(&["f", "(", "a", ",", "b", ")"]);
    let layout = call_layout(&stream, vec![item(0, 6)]);
    let doc = Formatter::new(&stream).format(&layout).unwrap();
    assert_eq!(render(&doc, &FormatOptions { max_width: 100, indent_width: 4 }), "f(a, b)\n");
}

#[test]
fn a_call_breaks_with_a_trailing_comma_when_it_does_not_fit() {
    let stream = stream_of(&["f", "(", "a", ",", "b", ")"]);
    let layout = call_layout(&stream, vec![item(0, 6)]);
    let doc = Formatter::new(&stream).format(&layout).unwrap();
    assert_eq!(render(&doc, &FormatOptions { max_width: 4, indent_width: 4 }), "f(\n    a,\n    b,\n)\n");
}

#[test]
fn a_block_puts_its_contents_on_their_own_lines() {
    let stream = stream_of(&["{", "x", "}"]);
    let mut layout = call_layout(&stream, vec![item(0, 3)]);
    layout.facts[1].flags.0 = 0;
    layout.facts[0].delimiter_style = Some(DelimiterStyle::Block);
    let doc = Formatter::new(&stream).format(&layout).unwrap();
    assert_eq!(render(&doc, &FormatOptions { max_width: 100, indent_width: 4 }), "{\n    x\n}\n");
}

#[test]
fn tokens_left_out_of_the_plan_fail_the_format() {
    let stream = stream_of(&["f", "(", "a", ",", "b", ")"]);
    let layout = call_layout(&stream, vec![]);
    match Formatter::new(&stream).format(&layout) {
        Err(FormatError::Internal(message)) => assert_eq!(message, "emitted 0 of 6 significant tokens"),
        other => panic!("unexpected {other:?}"),
    }
}

#[test]
fn a_delimited_list_emits_each_of_its_tokens() {
    let stream = stream_of(&["(", "a", ")"]);
    let mut layout = call_layout(&stream, vec![]);
    layout.facts[1].flags.0 = 0;
    let mut formatter = Formatter::new(&stream);
    let doc = formatter.delimited(&layout, TokenId(0), TokenId(2)).unwrap();
    assert_eq!(formatter.consumed_tokens, 3);
    assert_eq!(render(&doc, &FormatOptions { max_width: 100, indent_width: 4 }), "(a)\n");
}
