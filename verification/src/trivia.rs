//! Assigning the comments of a gap to the units around it.
use vstd::prelude::*;

use crate::token_stream::{Comment, CommentPlacement, Gap, copy_comment, copy_comments, empty_gap};

verus! {

/// The comments and line feeds of a gap.
pub open spec fn gap_view(gap: Gap) -> (Seq<Comment>, nat) {
    (gap.comments@, gap.newlines as nat)
}

/// The index of the first comment, from `i` on, that is not trailing.
pub open spec fn first_non_trailing_from(comments: Seq<Comment>, i: nat) -> nat
    decreases comments.len() - i,
{
    if i >= comments.len() {
        comments.len()
    } else if comments[i as int].placement != CommentPlacement::Trailing {
        i
    } else {
        first_non_trailing_from(comments, i + 1)
    }
}

/// The number of trailing comments that open the gap.
pub open spec fn trailing_prefix_len(comments: Seq<Comment>) -> nat {
    first_non_trailing_from(comments, 0)
}

/// `comments` with no line feeds before the first one.
pub open spec fn detach_first(comments: Seq<Comment>) -> Seq<Comment> {
    if comments.len() == 0 {
        comments
    } else {
        comments.update(0, Comment { newlines_before: 0, ..comments[0] })
    }
}

/// What identifies a comment, apart from the line feeds before it.
pub open spec fn comment_key(comment: Comment) -> (Seq<char>, crate::token_stream::CommentKind, CommentPlacement, bool) {
    (comment.text@, comment.kind, comment.placement, comment.multiline)
}

pub open spec fn comment_keys(comments: Seq<Comment>) -> Seq<(Seq<char>, crate::token_stream::CommentKind, CommentPlacement, bool)> {
    comments.map_values(|comment: Comment| comment_key(comment))
}

/// The two halves of a gap between two movable units: the trailing comments
/// of the unit on the left, then the leading comments of the unit on the right.
pub open spec fn split_between_spec(comments: Seq<Comment>, newlines: nat) -> (
    (Seq<Comment>, nat),
    (Seq<Comment>, nat),
) {
    let k = trailing_prefix_len(comments);
    if k == 0 {
        ((Seq::empty(), 0), (comments, newlines))
    } else if k == comments.len() {
        ((comments, if newlines < 1 {
            newlines
        } else {
            1
        }), (Seq::empty(), 0))
    } else {
        (
            (comments.take(k as int), comments[k as int].newlines_before as nat),
            (detach_first(comments.skip(k as int)), newlines),
        )
    }
}

/// The start of the closest block of comments ending at `i`: a blank line
/// separates blocks.
pub open spec fn block_start(comments: Seq<Comment>, i: nat, floor: nat) -> nat
    decreases i,
{
    if i > floor && comments[i as int].newlines_before <= 1 {
        block_start(comments, (i - 1) as nat, floor)
    } else {
        i
    }
}

/// A file's first gap, divided into the file header and the leading comments
/// of the first item.
pub open spec fn split_file_header_spec(comments: Seq<Comment>, newlines: nat) -> (
    (Seq<Comment>, nat),
    (Seq<Comment>, nat),
) {
    let item = split_between_spec(comments, newlines).1;
    let cs = item.0;
    if cs.len() == 0 || item.1 > 1 {
        (item, (Seq::empty(), 0))
    } else {
        let start = block_start(cs, (cs.len() - 1) as nat, 0);
        (
            (cs.take(start as int), cs[start as int].newlines_before as nat),
            (detach_first(cs.skip(start as int)), item.1),
        )
    }
}

/// The gap after an import-group opener, divided into the comments that stay
/// on the opener and the leading comments of the first path. With only
/// inline comments, or with a blank line before the first path, every
/// comment stays on the opener.
pub open spec fn split_group_opening_spec(comments: Seq<Comment>, newlines: nat) -> (
    (Seq<Comment>, nat),
    (Seq<Comment>, nat),
) {
    let k = trailing_prefix_len(comments);
    let initial = if k == comments.len() || newlines > 1 {
        comments.len()
    } else {
        (comments.len() - 1) as nat
    };
    let start = if initial == comments.len() {
        initial
    } else {
        block_start(comments, initial, k)
    };
    (
        (comments.take(start as int), if start < comments.len() {
            comments[start as int].newlines_before as nat
        } else {
            newlines
        }),
        (detach_first(comments.skip(start as int)), newlines),
    )
}

proof fn lemma_first_non_trailing(comments: Seq<Comment>, k: nat, i: nat)
    requires
        i <= k <= comments.len(),
        forall|j: int| 0 <= j < k ==> #[trigger] comments[j].placement == CommentPlacement::Trailing,
        k == comments.len() || comments[k as int].placement != CommentPlacement::Trailing,
    ensures
        first_non_trailing_from(comments, i) == k,
    decreases k - i,
{
    if i < k {
        lemma_first_non_trailing(comments, k, i + 1);
    }
}

proof fn lemma_block_start_bounds(comments: Seq<Comment>, i: nat, floor: nat)
    requires
        floor <= i,
    ensures
        floor <= block_start(comments, i, floor) <= i,
    decreases i,
{
    if i > floor && comments[i as int].newlines_before <= 1 {
        lemma_block_start_bounds(comments, (i - 1) as nat, floor);
    }
}

/// `comments[start..]` with the first comment detached.
fn detached_suffix(comments: &Vec<Comment>, start: usize) -> (result: Vec<Comment>)
    requires
        start <= comments@.len(),
    ensures
        result@ == detach_first(comments@.skip(start as int)),
{
    let mut result = copy_comments(comments, start, comments.len());
    assert(result@ =~= comments@.skip(start as int));
    if result.len() > 0 {
        let mut first = copy_comment(&result[0]);
        first.newlines_before = 0;
        result.set(0, first);
    }
    result
}

/// The number of trailing comments that open `gap`.
fn trailing_count(gap: &Gap) -> (result: usize)
    ensures
        result == trailing_prefix_len(gap.comments@),
        result <= gap.comments@.len(),
{
    let mut split: usize = 0;
    while split < gap.comments.len() && gap.comments[split].placement == CommentPlacement::Trailing
        invariant
            split <= gap.comments@.len(),
            forall|j: int| 0 <= j < split ==> #[trigger] gap.comments@[j].placement
                == CommentPlacement::Trailing,
        decreases gap.comments@.len() - split,
    {
        split += 1;
    }
    proof {
        lemma_first_non_trailing(gap.comments@, split as nat, 0);
    }
    split
}

/// Splits trivia between two movable units without guessing that the whole
/// gap belongs to the unit on its right. Inline comments form the trailing
/// prefix; comments beginning on their own line form the leading suffix.
pub fn split_between(gap: &Gap) -> (result: (Gap, Gap))
    ensures
        (gap_view(result.0), gap_view(result.1)) == split_between_spec(
            gap.comments@,
            gap.newlines as nat,
        ),
        comment_keys(result.0.comments@ + result.1.comments@) == comment_keys(gap.comments@),
{
    let split = trailing_count(gap);
    let len = gap.comments.len();
    let ghost cs = gap.comments@;
    let result = if split == 0 {
        (empty_gap(), Gap { comments: copy_comments(&gap.comments, 0, len), newlines: gap.newlines })
    } else if split == len {
        (
            Gap {
                comments: copy_comments(&gap.comments, 0, len),
                newlines: if gap.newlines < 1 {
                    gap.newlines
                } else {
                    1
                },
            },
            empty_gap(),
        )
    } else {
        (
            Gap {
                comments: copy_comments(&gap.comments, 0, split),
                newlines: gap.comments[split].newlines_before,
            },
            Gap { comments: detached_suffix(&gap.comments, split), newlines: gap.newlines },
        )
    };
    proof {
        assert(cs.take(len as int) =~= cs);
        assert(comment_keys(result.0.comments@ + result.1.comments@) =~= comment_keys(cs));
    }
    result
}

/// Separates comments that are visually a file banner from documentation
/// attached to the first item. The closest contiguous comment block is
/// leading trivia; earlier blocks remain anchored at the file head.
pub fn split_file_header(gap: &Gap) -> (result: (Gap, Gap))
    ensures
        (gap_view(result.0), gap_view(result.1)) == split_file_header_spec(
            gap.comments@,
            gap.newlines as nat,
        ),
        comment_keys(result.0.comments@ + result.1.comments@) == comment_keys(
            gap.comments@.skip(trailing_prefix_len(gap.comments@) as int),
        ),
{
    let (_, item) = split_between(gap);
    let ghost cs = gap.comments@;
    let ghost k = trailing_prefix_len(cs);
    proof {
        assert(comment_keys(item.comments@) =~= comment_keys(cs.skip(k as int)));
    }
    if item.comments.len() == 0 || item.newlines > 1 {
        proof {
            assert(item.comments@ + Seq::<Comment>::empty() =~= item.comments@);
        }
        return (item, empty_gap());
    }
    let len = item.comments.len();
    let mut start = len - 1;
    while start > 0 && item.comments[start].newlines_before <= 1
        invariant
            start < len,
            len == item.comments@.len(),
            block_start(item.comments@, (len - 1) as nat, 0) == block_start(
                item.comments@,
                start as nat,
                0,
            ),
        decreases start,
    {
        start -= 1;
    }
    let header = Gap {
        comments: copy_comments(&item.comments, 0, start),
        newlines: item.comments[start].newlines_before,
    };
    let leading = Gap { comments: detached_suffix(&item.comments, start), newlines: item.newlines };
    proof {
        assert(comment_keys(header.comments@ + leading.comments@) =~= comment_keys(item.comments@));
    }
    (header, leading)
}

/// Splits trivia after an import-group opener. Inline opener comments and
/// standalone banner blocks stay on the opener; only the closest comment
/// block without a blank line before the first path becomes path
/// documentation.
pub fn split_group_opening(gap: &Gap) -> (result: (Gap, Gap))
    ensures
        (gap_view(result.0), gap_view(result.1)) == split_group_opening_spec(
            gap.comments@,
            gap.newlines as nat,
        ),
        comment_keys(result.0.comments@ + result.1.comments@) == comment_keys(gap.comments@),
{
    let trailing = trailing_count(gap);
    let len = gap.comments.len();
    let initial = if trailing == len || gap.newlines > 1 {
        len
    } else {
        len - 1
    };
    let mut start = initial;
    while start > trailing && start < len && gap.comments[start].newlines_before <= 1
        invariant
            trailing <= start <= initial,
            initial <= len,
            len == gap.comments@.len(),
            initial < len ==> start < len,
            initial == len ==> start == len,
            initial < len ==> block_start(gap.comments@, initial as nat, trailing as nat) == block_start(
                gap.comments@,
                start as nat,
                trailing as nat,
            ),
        decreases start,
    {
        start -= 1;
    }
    let opening = Gap {
        comments: copy_comments(&gap.comments, 0, start),
        newlines: if start < len {
            gap.comments[start].newlines_before
        } else {
            gap.newlines
        },
    };
    let leading = Gap { comments: detached_suffix(&gap.comments, start), newlines: gap.newlines };
    proof {
        assert(comment_keys(opening.comments@ + leading.comments@) =~= comment_keys(gap.comments@));
    }
    (opening, leading)
}

} // verus!
