use rue::ordering::{gap_has_blank_line, CompactGroup};
use rue::token_stream::{Comment, CommentKind, CommentPlacement, Gap};
use rue::trivia::{split_between, split_file_header, split_group_opening};

fn comment(text: &str, newlines_before: usize, placement: CommentPlacement) -> Comment {
    Comment {
        text: text.to_string(),
        kind: CommentKind::Line,
        newlines_before,
        placement,
        multiline: false,
    }
}

fn texts(gap: &Gap) -> Vec<String> {
    gap.comments.iter().map(|c| c.text.clone()).collect()
}

fn befores(gap: &Gap) -> Vec<usize> {
    gap.comments.iter().map(|c| c.newlines_before).collect()
}

#[test]
fn split_between_gives_inline_comments_to_the_left() {
    let gap = Gap {
        comments: vec![
            comment("// a", 0, CommentPlacement::Trailing),
            comment("// b", 2, CommentPlacement::Leading),
            comment("// c", 1, CommentPlacement::Leading),
        ],
        newlines: 1,
    };
    let (trailing, leading) = split_between(&gap);
    assert_eq!(texts(&trailing), ["// a"]);
    assert_eq!(trailing.newlines, 2);
    assert_eq!(texts(&leading), ["// b", "// c"]);
    assert_eq!(befores(&leading), [0, 1]);
    assert_eq!(leading.newlines, 1);
}

#[test]
fn split_between_without_trailing_comments_keeps_the_gap_right() {
    let gap = Gap { comments: vec![comment("// b", 1, CommentPlacement::Leading)], newlines: 3 };
    let (trailing, leading) = split_between(&gap);
    assert!(trailing.comments.is_empty());
    assert_eq!(trailing.newlines, 0);
    assert_eq!(texts(&leading), ["// b"]);
    assert_eq!(befores(&leading), [1]);
    assert_eq!(leading.newlines, 3);
}

#[test]
fn split_between_with_only_trailing_comments_caps_line_feeds() {
    let gap = Gap { comments: vec![comment("// a", 0, CommentPlacement::Trailing)], newlines: 3 };
    let (trailing, leading) = split_between(&gap);
    assert_eq!(texts(&trailing), ["// a"]);
    assert_eq!(trailing.newlines, 1);
    assert!(leading.comments.is_empty());
    assert_eq!(leading.newlines, 0);
}

#[test]
fn file_header_keeps_banner_and_attaches_closest_block() {
    let gap = Gap {
        comments: vec![
            comment("// banner", 0, CommentPlacement::Leading),
            comment("// doc 1", 2, CommentPlacement::Leading),
            comment("// doc 2", 1, CommentPlacement::Leading),
        ],
        newlines: 1,
    };
    let (header, leading) = split_file_header(&gap);
    assert_eq!(texts(&header), ["// banner"]);
    assert_eq!(header.newlines, 2);
    assert_eq!(texts(&leading), ["// doc 1", "// doc 2"]);
    assert_eq!(befores(&leading), [0, 1]);
    assert_eq!(leading.newlines, 1);
}

#[test]
fn file_header_takes_everything_before_a_blank_line() {
    let gap = Gap { comments: vec![comment("// banner", 0, CommentPlacement::Leading)], newlines: 2 };
    let (header, leading) = split_file_header(&gap);
    assert_eq!(texts(&header), ["// banner"]);
    assert_eq!(header.newlines, 2);
    assert!(leading.comments.is_empty());
}

#[test]
fn group_opening_keeps_inline_comment_on_the_opener() {
    let gap = Gap {
        comments: vec![
            comment("// opener", 0, CommentPlacement::Trailing),
            comment("// path doc", 1, CommentPlacement::Leading),
        ],
        newlines: 1,
    };
    let (opening, leading) = split_group_opening(&gap);
    assert_eq!(texts(&opening), ["// opener"]);
    assert_eq!(opening.newlines, 1);
    assert_eq!(texts(&leading), ["// path doc"]);
    assert_eq!(befores(&leading), [0]);
    assert_eq!(leading.newlines, 1);
}

#[test]
fn group_opening_with_only_inline_comments_leaves_the_path_bare() {
    let gap = Gap { comments: vec![comment("// opener", 0, CommentPlacement::Trailing)], newlines: 1 };
    let (opening, leading) = split_group_opening(&gap);
    assert_eq!(texts(&opening), ["// opener"]);
    assert_eq!(opening.newlines, 1);
    assert!(leading.comments.is_empty());
    assert_eq!(leading.newlines, 1);
}

#[test]
fn blank_lines_are_found_before_and_between_comments() {
    assert!(!gap_has_blank_line(&Gap { comments: vec![], newlines: 1 }));
    assert!(gap_has_blank_line(&Gap { comments: vec![], newlines: 2 }));
    assert!(gap_has_blank_line(&Gap {
        comments: vec![comment("// a", 2, CommentPlacement::Leading)],
        newlines: 0
    }));
    assert!(!gap_has_blank_line(&Gap {
        comments: vec![comment("// a", 1, CommentPlacement::Leading)],
        newlines: 1
    }));
}

#[test]
fn compact_groups_compare_by_kind() {
    assert_eq!(CompactGroup::Constant, CompactGroup::Constant);
    assert_ne!(CompactGroup::Constant, CompactGroup::TypeAlias);
    assert_ne!(CompactGroup::TypeAlias, CompactGroup::ExternDeclaration);
}

#[test]
fn group_opening_keeps_every_comment_before_a_blank_line() {
    let gap = Gap {
        comments: vec![
            comment("// opener", 0, CommentPlacement::Trailing),
            comment("// banner", 1, CommentPlacement::Leading),
        ],
        newlines: 2,
    };
    let (opening, leading) = split_group_opening(&gap);
    assert_eq!(texts(&opening), ["// opener", "// banner"]);
    assert_eq!(opening.newlines, 2);
    assert!(leading.comments.is_empty());
    assert_eq!(leading.newlines, 2);
}
