use rue::document::{Doc, LineKind};
use rue::renderer::{fits, fits_broken_prefix, has_forced_line, normalize_output, render, FormatOptions};

fn text(s: &str) -> Doc {
    Doc::text(s)
}

fn options(max_width: usize) -> FormatOptions {
    FormatOptions { max_width, indent_width: 4 }
}

#[test]
fn default_options_match_rustfmt() {
    let options = FormatOptions::default();
    assert_eq!(options.max_width, 100);
    assert_eq!(options.indent_width, 4);
}

#[test]
fn plain_text_gets_one_final_line_feed() {
    assert_eq!(render(&text("hello"), &FormatOptions::default()), "hello\n");
    assert_eq!(render(&Doc::Nil, &FormatOptions::default()), "\n");
}

#[test]
fn group_stays_flat_when_it_fits() {
    let doc = Doc::concat(vec![text("a"), Doc::soft_line(), text("b")]).group();
    assert_eq!(render(&doc, &options(100)), "a b\n");
}

#[test]
fn group_breaks_when_too_wide() {
    let doc = Doc::concat(vec![text("a"), Doc::soft_line(), text("b")]).group();
    assert_eq!(render(&doc, &options(2)), "a\nb\n");
}

#[test]
fn hard_line_forces_the_group_to_break() {
    let doc = Doc::concat(vec![text("a"), Doc::soft_line(), text("b"), Doc::hard_line(), text("c")]).group();
    assert_eq!(render(&doc, &options(100)), "a\nb\nc\n");
}

#[test]
fn indentation_applies_after_line_breaks() {
    let doc = Doc::concat(vec![
        text("{"),
        Doc::concat(vec![Doc::hard_line(), text("x")]).indent(),
        Doc::hard_line(),
        text("}"),
    ]);
    assert_eq!(render(&doc, &FormatOptions::default()), "{\n    x\n}\n");
}

#[test]
fn outdent_removes_one_level() {
    let doc = Doc::concat(vec![Doc::hard_line(), text("x")]).outdent().indent().indent();
    assert_eq!(render(&doc, &FormatOptions::default()), "\n    x\n");
}

#[test]
fn empty_lines_leave_at_most_one_blank_line() {
    let doc = Doc::concat(vec![text("a"), Doc::empty_line(), text("b")]);
    assert_eq!(render(&doc, &FormatOptions::default()), "a\n\nb\n");
    let twice = Doc::concat(vec![text("a"), Doc::empty_line(), Doc::empty_line(), text("b")]);
    assert_eq!(render(&twice, &FormatOptions::default()), "a\n\nb\n");
}

#[test]
fn fill_keeps_a_space_or_breaks_with_indentation() {
    let doc = Doc::concat(vec![text("a"), Doc::fill(text("b"), 1)]);
    assert_eq!(render(&doc, &options(100)), "a b\n");
    let doc = Doc::concat(vec![text("a"), Doc::fill(text("b"), 1)]);
    assert_eq!(render(&doc, &options(2)), "a\n    b\n");
}

#[test]
fn fill_choice_uses_its_broken_form_when_breaking() {
    let doc = Doc::concat(vec![text("ab"), Doc::fill_choice(text("c"), text("dd"), false, 0)]);
    assert_eq!(render(&doc, &options(100)), "abc\n");
    let doc = Doc::concat(vec![text("ab"), Doc::fill_choice(text("c"), text("dd"), false, 0)]);
    assert_eq!(render(&doc, &options(2)), "ab\ndd\n");
}

#[test]
fn if_break_chooses_by_group_mode() {
    let make = || Doc::concat(vec![text("x"), Doc::soft_line(), text("y"), Doc::if_break(text(","), Doc::Nil)]).group();
    assert_eq!(render(&make(), &options(100)), "x y\n");
    assert_eq!(render(&make(), &options(2)), "x\ny,\n");
}

#[test]
fn output_ends_with_exactly_one_line_feed() {
    assert_eq!(normalize_output("a\n\n\n\n"), "a\n");
    assert_eq!(normalize_output("a\n\n"), "a\n");
    assert_eq!(normalize_output("\n\n"), "\n");
    assert_eq!(normalize_output("a\n"), "a\n");
    assert_eq!(normalize_output("a"), "a\n");
    assert_eq!(normalize_output(""), "\n");
    assert_eq!(normalize_output(&normalize_output("b\n\n\n")), normalize_output("b\n\n\n"));
}

#[test]
fn forced_lines_are_found_through_nesting() {
    assert!(!has_forced_line(&text("x")));
    assert!(!has_forced_line(&Doc::soft_line()));
    assert!(has_forced_line(&Doc::hard_line()));
    assert!(has_forced_line(&Doc::concat(vec![text("a"), Doc::empty_line()]).indent().group()));
    assert!(!has_forced_line(&Doc::if_break(Doc::hard_line(), text("x"))));
    assert!(has_forced_line(&Doc::if_break(text("x"), Doc::hard_line())));
    assert!(!has_forced_line(&Doc::Line(LineKind::Soft)));
}

#[test]
fn fits_measures_until_the_line_ends() {
    let doc = Doc::concat(vec![text("abc"), Doc::hard_line(), text("much longer text")]);
    assert!(fits(3, 0, &doc, &Vec::new()));
    assert!(!fits(2, 0, &doc, &Vec::new()));
    let soft = Doc::concat(vec![text("ab"), Doc::soft_line(), text("c")]);
    assert!(fits(4, 0, &soft, &Vec::new()));
    assert!(!fits(3, 0, &soft, &Vec::new()));
    assert!(fits(100, 0, &soft, &Vec::new()));
}

#[test]
fn broken_prefix_stops_at_the_first_line() {
    let doc = Doc::concat(vec![text("ab"), Doc::soft_line(), text("much longer text")]);
    assert!(fits_broken_prefix(2, &doc, &Vec::new()));
    assert!(!fits_broken_prefix(1, &doc, &Vec::new()));
}

#[test]
fn cloned_documents_render_alike() {
    let doc = Doc::concat(vec![
        text("f("),
        Doc::concat(vec![Doc::soft_line(), text("x")]).indent(),
        Doc::if_break(text(","), Doc::Nil),
        Doc::soft_line(),
        text(")"),
    ])
    .group();
    let copy = doc.clone();
    assert_eq!(render(&copy, &options(3)), render(&doc, &options(3)));
    assert_eq!(render(&copy, &options(100)), "f( x )\n");
}

#[test]
fn line_breaks_are_line_feeds_only() {
    let doc = Doc::concat(vec![
        text("a"),
        Doc::concat(vec![Doc::hard_line(), text("b"), Doc::empty_line(), text("c")]).indent(),
        Doc::fill(text("d"), 2),
    ]);
    let output = render(&doc, &options(3));
    assert_eq!(output, "a\n    b\n\n    c\n        d\n");
    assert!(!output.contains('\r'));
}

#[test]
fn blank_indented_lines_lose_their_indentation() {
    let doc = Doc::concat(vec![Doc::hard_line(), Doc::hard_line(), text("x")]).indent();
    assert_eq!(render(&doc, &FormatOptions::default()), "\n\n    x\n");
}

#[test]
fn lines_lose_trailing_blanks() {
    assert_eq!(normalize_output("a  \n b\t\nc \t"), "a\n b\nc\n");
    assert_eq!(normalize_output("a\n  \n\n\t\nb"), "a\n\nb\n");
    assert_eq!(normalize_output("  \n\n"), "\n");
}

#[test]
fn document_ending_in_a_blank_line_ends_with_one_line_feed() {
    let doc = Doc::concat(vec![text("a"), Doc::empty_line()]);
    assert_eq!(render(&doc, &FormatOptions::default()), "a\n");
}

#[test]
fn texts_and_concatenations_render_in_order() {
    let doc = Doc::concat(vec![text("ab"), Doc::Nil, Doc::concat(vec![text("c"), text("")]), text("de")]);
    assert_eq!(render(&doc, &options(1)), "abcde\n");
    let doc = Doc::concat(vec![text("ab"), Doc::concat(vec![text("cd")])]);
    assert!(fits(4, 0, &doc, &Vec::new()));
    assert!(!fits(3, 0, &doc, &Vec::new()));
}
