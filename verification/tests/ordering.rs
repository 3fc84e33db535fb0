use rue::ordering::{plan_document, CompactGroup, DocumentPlan, ItemSource};
use rue::token_stream::{RawClass, RawToken, TokenId, TokenSpan, TokenStream};

/// Scans `parts`, each a token class and its text, laid end to end.
fn stream_of(parts: &[(RawClass, &str)]) -> TokenStream {
    let mut offset = 0;
    let mut raws = Vec::new();
    for (class, text) in parts {
        raws.push(RawToken { class: class.clone(), text: text.to_string(), start: offset, end: offset + text.len() });
        offset += text.len();
    }
    TokenStream::from_tokens(&raws).unwrap()
}

fn sig(text: &str) -> (RawClass, &str) {
    (RawClass::Significant, text)
}

fn ws(text: &str) -> (RawClass, &str) {
    (RawClass::Whitespace, text)
}

fn item(start: usize, end: usize, is_import: bool, key: &str) -> ItemSource {
    ItemSource {
        span: TokenSpan::new(TokenId::new(start), TokenId::new(end)),
        is_import,
        compact_group: None,
        identity_key: key.to_string(),
    }
}

fn order(plan: &DocumentPlan) -> Vec<String> {
    plan.items.iter().map(|item| item.identity_key.clone()).collect()
}

#[test]
fn imports_are_hoisted_grouped_and_sorted_in_the_plan() {
    let stream = stream_of(&[
        sig("const"), ws(" "), sig("V"), sig("="), sig("1"), sig(";"), ws(" "),
        sig("import"), ws(" "), sig("zebra"), sig(";"), ws(" "),
        sig("import"), ws(" "), sig("beta"), sig(";"), ws("\n\n"),
        sig("import"), ws(" "), sig("delta"), sig(";"), ws(" "),
        sig("import"), ws(" "), sig("charlie"), sig(";"), ws(" "),
        sig("fn"), ws(" "), sig("main"), sig("("), sig(")"), sig("{"), sig("}"),
    ]);
    let mut constant = item(0, 5, false, "const");
    constant.compact_group = Some(CompactGroup::Constant);
    let sources = vec![
        constant,
        item(5, 8, true, "zebra"),
        item(8, 11, true, "beta"),
        item(11, 14, true, "delta"),
        item(14, 17, true, "charlie"),
        item(17, 23, false, "main"),
    ];
    let plan = plan_document(&sources, &stream);
    assert_eq!(order(&plan), ["beta", "zebra", "charlie", "delta", "const", "main"]);
    let groups: Vec<Option<usize>> = plan.items.iter().map(|item| item.import_group).collect();
    assert_eq!(groups, [Some(1), Some(1), Some(2), Some(2), None, None]);
    let positions: Vec<usize> = plan.items.iter().map(|item| item.original_index).collect();
    assert_eq!(positions, [2, 1, 4, 3, 0, 5]);
    assert_eq!(plan.items[0].sort_key, "beta\0import");
    assert_eq!(plan.items[4].compact_group, Some(CompactGroup::Constant));
    assert_eq!(plan.items[4].span, TokenSpan::new(TokenId::new(0), TokenId::new(5)));
}

#[test]
fn export_sorts_before_import_of_the_same_path() {
    let stream = stream_of(&[
        sig("import"), ws(" "), sig("shared"), sig("::"), sig("item"), sig(";"), ws("\n"),
        sig("export"), ws(" "), sig("shared"), sig("::"), sig("item"), sig(";"),
    ]);
    let sources = vec![item(0, 5, true, "import"), item(5, 10, true, "export")];
    let plan = plan_document(&sources, &stream);
    assert_eq!(order(&plan), ["export", "import"]);
    assert_eq!(plan.items[0].sort_key, "shared::item\0export");
    assert_eq!(plan.items[1].sort_key, "shared::item\0import");
}

#[test]
fn comments_move_with_their_imports() {
    let stream = stream_of(&[
        (RawClass::LineComment, "// zeta docs\n"),
        sig("import"), ws(" "), sig("zeta"), sig(";"), ws("\n"),
        (RawClass::LineComment, "// alpha docs\n"),
        sig("import"), ws(" "), sig("alpha"), sig(";"),
    ]);
    let sources = vec![item(0, 3, true, "zeta"), item(3, 6, true, "alpha")];
    let plan = plan_document(&sources, &stream);
    assert_eq!(order(&plan), ["alpha", "zeta"]);
    assert_eq!(plan.items[0].leading.comments[0].text, "// alpha docs");
    assert_eq!(plan.items[1].leading.comments[0].text, "// zeta docs");
    assert!(plan.header.comments.is_empty());
    assert!(plan.footer.comments.is_empty());
}

#[test]
fn file_header_stays_at_the_head() {
    let stream = stream_of(&[
        (RawClass::LineComment, "// file header\n"),
        ws("\n"),
        (RawClass::LineComment, "// zeta docs\n"),
        sig("import"), ws(" "), sig("zeta"), sig(";"),
        ws(" "),
        (RawClass::LineComment, "// tail\n"),
    ]);
    let sources = vec![item(0, 3, true, "zeta")];
    let plan = plan_document(&sources, &stream);
    assert_eq!(plan.header.comments.len(), 1);
    assert_eq!(plan.header.comments[0].text, "// file header");
    assert_eq!(plan.header.newlines, 2);
    assert_eq!(plan.items[0].leading.comments[0].text, "// zeta docs");
    assert_eq!(plan.items[0].trailing.comments[0].text, "// tail");
    assert!(plan.footer.comments.is_empty());
}

#[test]
fn empty_document_keeps_its_only_gap_as_header() {
    let stream = stream_of(&[(RawClass::LineComment, "// only\n")]);
    let plan = plan_document(&Vec::new(), &stream);
    assert!(plan.items.is_empty());
    assert_eq!(plan.header.comments[0].text, "// only");
    assert_eq!(plan.header.newlines, 1);
    assert!(plan.footer.comments.is_empty());
    assert_eq!(plan.footer.newlines, 0);
}
