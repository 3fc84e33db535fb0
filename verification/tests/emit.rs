use rue::document::Doc;
use rue::emit::{comment_separator, indent_levels, separator_doc, Separator};
use rue::renderer::{render, FormatOptions};
use rue::emit::Formatter;
use rue::token_stream::{Comment, CommentKind, CommentPlacement, Gap, RawClass, RawToken, TokenId, TokenStream};

fn shown(doc: Doc) -> String {
    render(&Doc::concat(vec![Doc::text("a"), doc, Doc::text("b")]), &FormatOptions::default())
}

fn comment(newlines_before: usize, placement: CommentPlacement, multiline: bool) -> Comment {
    Comment {
        text: "/* c */".to_string(),
        kind: CommentKind::Block,
        newlines_before,
        placement,
        multiline,
    }
}

#[test]
fn separators_render_as_named() {
    assert_eq!(shown(separator_doc(Separator::Nothing)), "ab\n");
    assert_eq!(shown(separator_doc(Separator::Space)), "a b\n");
    assert_eq!(shown(separator_doc(Separator::Soft)), "a\nb\n");
    assert_eq!(shown(separator_doc(Separator::Hard)), "a\nb\n");
    assert_eq!(shown(separator_doc(Separator::Empty)), "a\n\nb\n");
}

#[test]
fn comment_separator_follows_the_source() {
    let trailing = comment(0, CommentPlacement::Trailing, false);
    assert_eq!(shown(comment_separator(&trailing, Separator::Hard, false)), "a b\n");
    assert_eq!(shown(comment_separator(&trailing, Separator::Nothing, true)), "ab\n");
    assert_eq!(shown(comment_separator(&comment(2, CommentPlacement::Leading, false), Separator::Space, false)), "a\n\nb\n");
    assert_eq!(shown(comment_separator(&comment(1, CommentPlacement::Leading, false), Separator::Space, false)), "a\nb\n");
    assert_eq!(shown(comment_separator(&comment(0, CommentPlacement::Leading, true), Separator::Space, false)), "a\nb\n");
    assert_eq!(shown(comment_separator(&comment(0, CommentPlacement::Leading, false), Separator::Space, false)), "a b\n");
}

#[test]
fn indent_levels_nest_indentation() {
    let body = Doc::concat(vec![Doc::hard_line(), Doc::text("x")]);
    assert_eq!(render(&indent_levels(body, 2), &FormatOptions::default()), "\n        x\n");
    let body = Doc::concat(vec![Doc::hard_line(), Doc::text("x")]);
    assert_eq!(render(&indent_levels(body, 0), &FormatOptions::default()), "\nx\n");
}

#[test]
fn group_if_groups_only_on_request() {
    let make = || Doc::concat(vec![Doc::text("a"), Doc::soft_line(), Doc::text("b")]);
    assert_eq!(render(&make().group_if(true), &FormatOptions::default()), "a b\n");
    assert_eq!(render(&make().group_if(false), &FormatOptions::default()), "a\nb\n");
}

fn line_comment(text: &str, newlines_before: usize, placement: CommentPlacement) -> Comment {
    Comment { text: text.to_string(), kind: CommentKind::Line, newlines_before, placement, multiline: false }
}

fn one_token_stream() -> TokenStream {
    let raws = vec![RawToken { class: RawClass::Significant, text: "a".to_string(), start: 0, end: 1 }];
    TokenStream::from_tokens(&raws).unwrap()
}

#[test]
fn formatter_emits_tokens_and_counts_them() {
    let stream = one_token_stream();
    let mut formatter = Formatter::new(&stream);
    let doc = formatter.token(TokenId::new(0));
    assert_eq!(formatter.consumed_tokens, 1);
    assert_eq!(render(&doc, &FormatOptions::default()), "a\n");
}

#[test]
fn inline_block_comment_sits_between_spaces() {
    let stream = one_token_stream();
    let mut formatter = Formatter::new(&stream);
    let block = Comment {
        text: "/* a */".to_string(),
        kind: CommentKind::Block,
        newlines_before: 0,
        placement: CommentPlacement::Trailing,
        multiline: false,
    };
    let gap = Gap { comments: vec![block], newlines: 0 };
    assert_eq!(shown(formatter.gap_doc(&gap, Separator::Space)), "a /* a */ b\n");
    assert_eq!(formatter.consumed_comments, 1);
}

#[test]
fn line_comment_gets_its_own_line() {
    let stream = one_token_stream();
    let mut formatter = Formatter::new(&stream);
    let gap = Gap { comments: vec![line_comment("// c", 1, CommentPlacement::Leading)], newlines: 1 };
    assert_eq!(shown(formatter.gap_doc(&gap, Separator::Space)), "a\n// c\nb\n");
    assert_eq!(
        shown(formatter.gap_doc_with_comments(&gap, Separator::Space, false, true)),
        "a\n// cb\n"
    );
    assert_eq!(formatter.consumed_comments, 2);
}

#[test]
fn blank_lines_around_comments_are_kept() {
    let stream = one_token_stream();
    let mut formatter = Formatter::new(&stream);
    let gap = Gap {
        comments: vec![
            line_comment("// a", 0, CommentPlacement::Trailing),
            line_comment("// b", 2, CommentPlacement::Leading),
        ],
        newlines: 2,
    };
    assert_eq!(shown(formatter.gap_doc(&gap, Separator::Hard)), "a // a\n\n// b\n\nb\n");
}

#[test]
fn empty_gaps_keep_a_blank_line_only_when_separated() {
    let stream = one_token_stream();
    let mut formatter = Formatter::new(&stream);
    let gap = Gap { comments: vec![], newlines: 2 };
    assert_eq!(shown(formatter.gap_doc(&gap, Separator::Hard)), "a\n\nb\n");
    assert_eq!(shown(formatter.gap_doc(&gap, Separator::Nothing)), "ab\n");
    assert_eq!(shown(formatter.movable_leading_doc(&gap, Separator::Space)), "a b\n");
    assert_eq!(formatter.consumed_comments, 0);
}
