//! Significant tokens and the trivia between them.
use std::collections::HashMap;
use vstd::prelude::*;
use vstd::string::StringSliceAdditionalSpecFns;
use vstd::utf8::encode_utf8;

use crate::numeral::{decimal, push_decimal};

verus! {

/// The index of a significant token.
#[derive(Debug, Clone, Copy, PartialEq, Eq, PartialOrd, Ord, Hash, Structural)]
pub struct TokenId(pub usize);

impl TokenId {
    pub fn new(index: usize) -> (result: Self)
        ensures
            result.0 == index,
    {
        TokenId(index)
    }

    pub fn index(self) -> (result: usize)
        ensures
            result == self.0,
    {
        self.0
    }

    /// The identifier of the following token.
    pub fn next(self) -> (result: Self)
        requires
            self.0 < usize::MAX,
        ensures
            result.0 == self.0 + 1,
    {
        TokenId(self.0 + 1)
    }
}

/// A range of significant tokens.
#[derive(Debug, Clone, Copy, PartialEq, Eq, Structural)]
pub struct TokenSpan {
    pub start: TokenId,
    pub end: TokenId,
}

impl TokenSpan {
    pub fn new(start: TokenId, end: TokenId) -> (result: Self)
        ensures
            result.start == start,
            result.end == end,
    {
        TokenSpan { start, end }
    }
}

/// The kind of a comment.
#[derive(Debug, Clone, Copy, PartialEq, Eq, Structural)]
pub enum CommentKind {
    Line,
    Block,
}

/// Where a comment stands relative to the significant tokens around it.
#[derive(Debug, Clone, Copy, PartialEq, Eq, PartialOrd, Ord, Structural)]
pub enum CommentPlacement {
    Leading,
    Trailing,
    Dangling,
}

/// A comment, with the line feeds that precede it.
#[derive(Debug, Clone)]
pub struct Comment {
    pub text: String,
    pub kind: CommentKind,
    pub newlines_before: usize,
    pub placement: CommentPlacement,
    pub multiline: bool,
}

/// The comments and line feeds between two significant tokens.
#[derive(Debug, Clone, Default)]
pub struct Gap {
    pub comments: Vec<Comment>,
    pub newlines: usize,
}

/// A copy of a comment.
pub fn copy_comment(comment: &Comment) -> (result: Comment)
    ensures
        result == *comment,
{
    Comment {
        text: comment.text.clone(),
        kind: comment.kind,
        newlines_before: comment.newlines_before,
        placement: comment.placement,
        multiline: comment.multiline,
    }
}

/// A copy of `comments[start..end]`.
pub fn copy_comments(comments: &Vec<Comment>, start: usize, end: usize) -> (result: Vec<Comment>)
    requires
        start <= end <= comments@.len(),
    ensures
        result@ == comments@.subrange(start as int, end as int),
{
    let mut result: Vec<Comment> = Vec::new();
    let mut i = start;
    while i < end
        invariant
            start <= i <= end,
            end <= comments@.len(),
            result@ == comments@.subrange(start as int, i as int),
        decreases end - i,
    {
        result.push(copy_comment(&comments[i]));
        i += 1;
        assert(result@ =~= comments@.subrange(start as int, i as int));
    }
    result
}

/// An empty gap.
pub fn empty_gap() -> (result: Gap)
    ensures
        result.comments@.len() == 0,
        result.newlines == 0,
{
    Gap { comments: Vec::new(), newlines: 0 }
}

/// Whether the byte at `i` ends a line: a line feed, or a carriage return
/// that no line feed follows.
pub open spec fn ends_line(bytes: Seq<u8>, i: int) -> bool {
    bytes[i] == 10u8 || (bytes[i] == 13u8 && (i + 1 == bytes.len() || bytes[i + 1] != 10u8))
}

/// The number of line ends among the first `n` bytes.
pub open spec fn line_ends_upto(bytes: Seq<u8>, n: nat) -> nat
    decreases n,
{
    if n == 0 {
        0
    } else {
        line_ends_upto(bytes, (n - 1) as nat) + if ends_line(bytes, n - 1) {
            1nat
        } else {
            0nat
        }
    }
}

/// The number of line breaks in `bytes`.
pub open spec fn newline_count_spec(bytes: Seq<u8>) -> nat {
    line_ends_upto(bytes, bytes.len())
}

/// The number of line breaks in `text`.
pub fn newline_count(text: &str) -> (result: usize)
    ensures
        result == newline_count_spec(text.spec_bytes()),
{
    let bytes = text.as_bytes();
    let mut count: usize = 0;
    let mut i: usize = 0;
    while i < bytes.len()
        invariant
            i <= bytes@.len(),
            bytes@ == text.spec_bytes(),
            count == line_ends_upto(bytes@, i as nat),
            count <= i,
        decreases bytes@.len() - i,
    {
        let b = bytes[i];
        if b == 10u8 {
            count += 1;
        } else if b == 13u8 {
            if i + 1 == bytes.len() || bytes[i + 1] != 10u8 {
                count += 1;
            }
        }
        i += 1;
    }
    count
}


/// The number of line breaks is at most the number of bytes.
pub proof fn lemma_line_ends_bound(bytes: Seq<u8>, n: nat)
    ensures
        line_ends_upto(bytes, n) <= n,
    decreases n,
{
    if n > 0 {
        lemma_line_ends_bound(bytes, (n - 1) as nat);
    }
}

// ---------------------------------------------------------------------------
// Scanning the tokens of a lossless tree.

/// How the scanner treats a token of the lossless tree.
#[derive(Debug, Clone)]
pub enum RawClass {
    Whitespace,
    LineComment,
    BlockComment,
    /// Trivia of a kind the scanner does not handle, with the kind's name.
    OtherTrivia(String),
    /// A token that is not trivia.
    Significant,
}

/// A token of the lossless tree, in source order, with its source range.
#[derive(Debug, Clone)]
pub struct RawToken {
    pub class: RawClass,
    pub text: String,
    pub start: usize,
    pub end: usize,
}

/// A significant token and the source offset where it starts.
#[derive(Debug, Clone)]
pub struct Token {
    pub text: String,
    pub start: usize,
}

/// A failure that prevents a safe formatting result.
#[derive(Debug, Clone)]
pub enum FormatError {
    /// The lossless tree contains trivia of an unsupported kind.
    UnsupportedTrivia(String),
    /// The tokens of the lossless tree were not in source order.
    TokenOrder { previous_end: usize, next_start: usize },
    /// A formatter invariant failed.
    Internal(String),
}

/// The value of a comment, its text as characters.
pub struct CommentView {
    pub text: Seq<char>,
    pub kind: CommentKind,
    pub newlines_before: nat,
    pub placement: CommentPlacement,
    pub multiline: bool,
}

impl View for Comment {
    type V = CommentView;

    open spec fn view(&self) -> CommentView {
        CommentView {
            text: self.text@,
            kind: self.kind,
            newlines_before: self.newlines_before as nat,
            placement: self.placement,
            multiline: self.multiline,
        }
    }
}

/// The value of a gap.
pub struct GapView {
    pub comments: Seq<CommentView>,
    pub newlines: nat,
}

impl View for Gap {
    type V = GapView;

    open spec fn view(&self) -> GapView {
        GapView { comments: self.comments@.map_values(|c: Comment| c@), newlines: self.newlines as nat }
    }
}

/// The state of a scan: the tokens and closed gaps so far, the comments of
/// the open gap, the line feeds not yet assigned, whether the current line
/// holds a significant token, the comments seen and where the last token
/// ended.
pub struct Scan {
    pub tokens: Seq<Token>,
    pub gaps: Seq<GapView>,
    pub open: Seq<CommentView>,
    pub pending: nat,
    pub on_line: bool,
    pub comments: nat,
    pub last_end: nat,
}

/// Why a scan fails.
pub enum ScanError {
    TokenOrder { previous_end: nat, next_start: nat },
    UnsupportedTrivia(String),
}

pub open spec fn initial_scan() -> Scan {
    Scan {
        tokens: seq![],
        gaps: seq![],
        open: seq![],
        pending: 0,
        on_line: false,
        comments: 0,
        last_end: 0,
    }
}

/// `text` without the line feeds and carriage returns that end it.
pub open spec fn trim_line_end(text: Seq<char>) -> Seq<char>
    decreases text.len(),
{
    if text.len() > 0 && (text.last() == '\n' || text.last() == '\r') {
        trim_line_end(text.drop_last())
    } else {
        text
    }
}

/// Where a comment stands: trailing when it follows a significant token on
/// its line, leading otherwise.
pub open spec fn placement_after(on_line: bool, pending: nat) -> CommentPlacement {
    if on_line && pending == 0 {
        CommentPlacement::Trailing
    } else {
        CommentPlacement::Leading
    }
}

/// One step of the scan.
pub open spec fn scan_step(s: Scan, raw: RawToken) -> Result<Scan, ScanError> {
    if raw.start < s.last_end {
        Err(ScanError::TokenOrder { previous_end: s.last_end, next_start: raw.start as nat })
    } else {
        let breaks = newline_count_spec(encode_utf8(raw.text@));
        let s = Scan { last_end: raw.end as nat, ..s };
        match raw.class {
            RawClass::Whitespace => Ok(
                Scan {
                    pending: s.pending + breaks,
                    on_line: if breaks > 0 {
                        false
                    } else {
                        s.on_line
                    },
                    ..s
                },
            ),
            RawClass::LineComment => Ok(
                Scan {
                    open: s.open.push(
                        CommentView {
                            text: trim_line_end(raw.text@),
                            kind: CommentKind::Line,
                            newlines_before: s.pending,
                            placement: placement_after(s.on_line, s.pending),
                            multiline: false,
                        },
                    ),
                    comments: s.comments + 1,
                    pending: breaks,
                    on_line: false,
                    ..s
                },
            ),
            RawClass::BlockComment => Ok(
                Scan {
                    open: s.open.push(
                        CommentView {
                            text: raw.text@,
                            kind: CommentKind::Block,
                            newlines_before: s.pending,
                            placement: placement_after(s.on_line, s.pending),
                            multiline: breaks > 0,
                        },
                    ),
                    comments: s.comments + 1,
                    pending: 0,
                    on_line: if breaks > 0 {
                        false
                    } else {
                        s.on_line
                    },
                    ..s
                },
            ),
            RawClass::OtherTrivia(name) => Err(ScanError::UnsupportedTrivia(name)),
            RawClass::Significant => Ok(
                Scan {
                    tokens: s.tokens.push(Token { text: raw.text, start: raw.start }),
                    gaps: s.gaps.push(GapView { comments: s.open, newlines: s.pending }),
                    open: seq![],
                    pending: 0,
                    on_line: true,
                    ..s
                },
            ),
        }
    }
}

/// The scan of the first `n` raw tokens.
pub open spec fn scan_upto(raws: Seq<RawToken>, n: nat) -> Result<Scan, ScanError>
    decreases n,
{
    if n == 0 {
        Ok(initial_scan())
    } else {
        match scan_upto(raws, (n - 1) as nat) {
            Ok(s) => scan_step(s, raws[n - 1]),
            Err(e) => Err(e),
        }
    }
}

/// The gaps of a finished scan: the open gap closes with the pending line
/// feeds.
pub open spec fn final_gaps(s: Scan) -> Seq<GapView> {
    s.gaps.push(GapView { comments: s.open, newlines: s.pending })
}

/// Each token's start mapped to its identifier; a later token wins a shared
/// start.
pub open spec fn offset_map(tokens: Seq<Token>) -> Map<usize, TokenId>
    decreases tokens.len(),
{
    if tokens.len() == 0 {
        Map::empty()
    } else {
        offset_map(tokens.drop_last()).insert(tokens.last().start, TokenId((tokens.len() - 1) as usize))
    }
}

/// The significant tokens of a source, with the trivia before, between and
/// after them.
#[derive(Debug, Clone)]
pub struct TokenStream {
    pub tokens: Vec<Token>,
    pub gaps: Vec<Gap>,
    pub comment_count: usize,
    pub token_by_offset: HashMap<usize, TokenId>,
}

/// Whether `raws` can come from a lossless tree: each token's range spans
/// exactly the bytes of its text.
pub open spec fn well_formed_raws(raws: Seq<RawToken>) -> bool {
    forall|i: int|
        0 <= i < raws.len() ==> #[trigger] raws[i].start <= raws[i].end
            && encode_utf8(raws[i].text@).len() == raws[i].end - raws[i].start
}

impl TokenStream {
    /// One gap more than tokens, and each token found by its start.
    pub open spec fn wf(&self) -> bool {
        &&& self.gaps@.len() == self.tokens@.len() + 1
        &&& self.token_by_offset@ == offset_map(self.tokens@)
    }

    /// Whether this stream is what the scan `s` finished with.
    pub open spec fn holds_scan(&self, s: Scan) -> bool {
        &&& self.tokens@ == s.tokens
        &&& self.gaps@.map_values(|g: Gap| g@) == final_gaps(s)
        &&& self.comment_count == s.comments
        &&& self.wf()
    }
}

/// Builds the line-feed-free text of a line comment.
fn trimmed_line_comment(text: &String) -> (result: String)
    ensures
        result@ == trim_line_end(text@),
{
    let len = text.as_str().unicode_len();
    let mut k = len;
    assert(text@.take(k as int) =~= text@);
    while k > 0
        invariant
            k <= len,
            len == text@.len(),
            trim_line_end(text@.take(k as int)) == trim_line_end(text@),
        ensures
            k <= len,
            trim_line_end(text@.take(k as int)) == trim_line_end(text@),
            k == 0 || (text@[k - 1] != '\n' && text@[k - 1] != '\r'),
        decreases k,
    {
        let c = text.as_str().get_char(k - 1);
        if c != '\n' && c != '\r' {
            break;
        }
        assert(text@.take(k as int).drop_last() =~= text@.take(k - 1));
        k -= 1;
    }
    proof {
        assert(text@.subrange(0, k as int) =~= text@.take(k as int));
        if k > 0 {
            assert(text@.take(k as int).last() == text@[k - 1]);
        }
    }
    String::from_str(text.as_str().substring_char(0, k))
}

/// Applies one raw token to the state of the scan.
fn scan_one(
    raw: &RawToken,
    tokens: &mut Vec<Token>,
    gaps: &mut Vec<Gap>,
    open: &mut Vec<Comment>,
    pending: &mut usize,
    on_line: &mut bool,
    comments: &mut usize,
    last_end: &mut usize,
    Ghost(s): Ghost<Scan>,
) -> (result: Result<(), FormatError>)
    requires
        old(tokens)@ == s.tokens,
        old(gaps)@.map_values(|g: Gap| g@) == s.gaps,
        old(open)@.map_values(|c: Comment| c@) == s.open,
        *old(pending) == s.pending,
        *old(on_line) == s.on_line,
        *old(comments) == s.comments,
        *old(last_end) == s.last_end,
        s.pending <= s.last_end,
        s.comments < usize::MAX,
        raw.start <= raw.end,
        encode_utf8(raw.text@).len() == raw.end - raw.start,
    ensures
        match scan_step(s, *raw) {
            Ok(t) => {
                &&& result is Ok
                &&& final(tokens)@ == t.tokens
                &&& final(gaps)@.map_values(|g: Gap| g@) == t.gaps
                &&& final(open)@.map_values(|c: Comment| c@) == t.open
                &&& *final(pending) == t.pending
                &&& *final(on_line) == t.on_line
                &&& *final(comments) == t.comments
                &&& *final(last_end) == t.last_end
                &&& t.pending <= t.last_end
            },
            Err(ScanError::TokenOrder { previous_end, next_start }) => result == Err::<(), FormatError>(
                FormatError::TokenOrder {
                    previous_end: previous_end as usize,
                    next_start: next_start as usize,
                },
            ),
            Err(ScanError::UnsupportedTrivia(name)) => result == Err::<(), FormatError>(
                FormatError::UnsupportedTrivia(name),
            ),
        },
{
    if raw.start < *last_end {
        return Err(FormatError::TokenOrder { previous_end: *last_end, next_start: raw.start });
    }
    *last_end = raw.end;
    let breaks = newline_count(raw.text.as_str());
    proof {
        lemma_line_ends_bound(encode_utf8(raw.text@), encode_utf8(raw.text@).len());
    }
    let ghost old_open = open@;
    match &raw.class {
        RawClass::Whitespace => {
            *pending = *pending + breaks;
            if breaks > 0 {
                *on_line = false;
            }
        },
        RawClass::LineComment => {
            let placement = if *on_line && *pending == 0 {
                CommentPlacement::Trailing
            } else {
                CommentPlacement::Leading
            };
            let comment = Comment {
                text: trimmed_line_comment(&raw.text),
                kind: CommentKind::Line,
                newlines_before: *pending,
                placement,
                multiline: false,
            };
            open.push(comment);
            proof {
                assert(open@.map_values(|c: Comment| c@) =~= old_open.map_values(|c: Comment| c@).push(comment@));
            }
            *comments = *comments + 1;
            *pending = breaks;
            *on_line = false;
        },
        RawClass::BlockComment => {
            let placement = if *on_line && *pending == 0 {
                CommentPlacement::Trailing
            } else {
                CommentPlacement::Leading
            };
            let multiline = breaks > 0;
            let comment = Comment {
                text: raw.text.clone(),
                kind: CommentKind::Block,
                newlines_before: *pending,
                placement,
                multiline,
            };
            open.push(comment);
            proof {
                assert(open@.map_values(|c: Comment| c@) =~= old_open.map_values(|c: Comment| c@).push(comment@));
            }
            *comments = *comments + 1;
            *pending = 0;
            if multiline {
                *on_line = false;
            }
        },
        RawClass::OtherTrivia(name) => {
            return Err(FormatError::UnsupportedTrivia(name.clone()));
        },
        RawClass::Significant => {
            let ghost old_gaps = gaps@;
            let mut closed: Vec<Comment> = Vec::new();
            std::mem::swap(&mut closed, open);
            let gap = Gap { comments: closed, newlines: *pending };
            proof {
                assert(gap@ == GapView { comments: s.open, newlines: s.pending });
            }
            gaps.push(gap);
            proof {
                assert(gaps@.map_values(|g: Gap| g@) =~= old_gaps.map_values(|g: Gap| g@).push(gap@));
                assert(open@.map_values(|c: Comment| c@) =~= Seq::<CommentView>::empty());
            }
            tokens.push(Token { text: raw.text.clone(), start: raw.start });
            *pending = 0;
            *on_line = true;
        },
    }
    Ok(())
}

impl TokenStream {
    /// Scans the tokens of a lossless tree, in source order, into significant
    /// tokens and the gaps of trivia around them.
    pub fn from_tokens(raws: &Vec<RawToken>) -> (result: Result<Self, FormatError>)
        requires
            well_formed_raws(raws@),
        ensures
            match scan_upto(raws@, raws@.len()) {
                Ok(s) => result matches Ok(stream) && stream.holds_scan(s),
                Err(ScanError::TokenOrder { previous_end, next_start }) => result == Err::<Self, FormatError>(
                    FormatError::TokenOrder {
                        previous_end: previous_end as usize,
                        next_start: next_start as usize,
                    },
                ),
                Err(ScanError::UnsupportedTrivia(name)) => result == Err::<Self, FormatError>(
                    FormatError::UnsupportedTrivia(name),
                ),
            },
    {
        let mut tokens: Vec<Token> = Vec::new();
        let mut gaps: Vec<Gap> = Vec::new();
        let mut open: Vec<Comment> = Vec::new();
        let mut pending: usize = 0;
        let mut on_line = false;
        let mut comments: usize = 0;
        let mut last_end: usize = 0;
        let mut i: usize = 0;
        proof {
            assert(gaps@.map_values(|g: Gap| g@) =~= Seq::<GapView>::empty());
            assert(open@.map_values(|c: Comment| c@) =~= Seq::<CommentView>::empty());
        }
        while i < raws.len()
            invariant
                i <= raws@.len(),
                well_formed_raws(raws@),
                comments <= i,
                scan_upto(raws@, i as nat) matches Ok(s) && {
                    &&& tokens@ == s.tokens
                    &&& gaps@.map_values(|g: Gap| g@) == s.gaps
                    &&& open@.map_values(|c: Comment| c@) == s.open
                    &&& pending == s.pending
                    &&& on_line == s.on_line
                    &&& comments == s.comments
                    &&& last_end == s.last_end
                    &&& s.pending <= s.last_end
                },
            decreases raws@.len() - i,
        {
            let ghost s = scan_upto(raws@, i as nat)->Ok_0;
            let ghost raw_i = raws@[i as int];
            assert(raw_i.start <= raw_i.end);
            let step = scan_one(
                &raws[i],
                &mut tokens,
                &mut gaps,
                &mut open,
                &mut pending,
                &mut on_line,
                &mut comments,
                &mut last_end,
                Ghost(s),
            );
            match step {
                Ok(()) => {},
                Err(e) => {
                    proof {
                        lemma_scan_error_sticks(raws@, (i + 1) as nat, raws@.len());
                    }
                    return Err(e);
                },
            }
            i += 1;
        }
        let ghost s = scan_upto(raws@, i as nat)->Ok_0;
        let ghost old_gaps = gaps@;
        let last = Gap { comments: open, newlines: pending };
        proof {
            assert(last@ == GapView { comments: s.open, newlines: s.pending });
        }
        gaps.push(last);
        proof {
            assert(gaps@.map_values(|g: Gap| g@) =~= old_gaps.map_values(|g: Gap| g@).push(last@));
        }
        let mut token_by_offset: HashMap<usize, TokenId> = HashMap::new();
        let mut index: usize = 0;
        proof {
            assert(tokens@.take(0) =~= Seq::<Token>::empty());
            assert(token_by_offset@ =~= offset_map(tokens@.take(0)));
        }
        while index < tokens.len()
            invariant
                index <= tokens@.len(),
                token_by_offset@ == offset_map(tokens@.take(index as int)),
            decreases tokens@.len() - index,
        {
            proof {
                broadcast use vstd::std_specs::hash::group_hash_axioms;
                let t = tokens@.take(index + 1);
                assert(t.drop_last() =~= tokens@.take(index as int));
            }
            token_by_offset.insert(tokens[index].start, TokenId::new(index));
            index += 1;
        }
        proof {
            assert(tokens@.take(tokens@.len() as int) =~= tokens@);
        }
        let stream = TokenStream { tokens, gaps, comment_count: comments, token_by_offset };
        proof {
            lemma_scan_gaps(raws@, raws@.len());
        }
        Ok(stream)
    }
}

/// Once a scan fails, every longer scan fails the same way.
proof fn lemma_scan_error_sticks(raws: Seq<RawToken>, n: nat, m: nat)
    requires
        n <= m,
        scan_upto(raws, n) is Err,
    ensures
        scan_upto(raws, m) == scan_upto(raws, n),
    decreases m - n,
{
    if n < m {
        lemma_scan_error_sticks(raws, n, (m - 1) as nat);
    }
}

/// A finished scan has one closed gap per token.
proof fn lemma_scan_gaps(raws: Seq<RawToken>, n: nat)
    ensures
        scan_upto(raws, n) matches Ok(s) ==> s.gaps.len() == s.tokens.len(),
    decreases n,
{
    if n > 0 {
        lemma_scan_gaps(raws, (n - 1) as nat);
    }
}


impl TokenStream {
    /// The number of significant tokens.
    pub fn len(&self) -> (result: usize)
        ensures
            result == self.tokens@.len(),
    {
        self.tokens.len()
    }

    /// The token `id`.
    pub fn token(&self, id: TokenId) -> (result: &Token)
        requires
            id.0 < self.tokens@.len(),
        ensures
            *result == self.tokens@[id.0 as int],
    {
        &self.tokens[id.index()]
    }

    /// The gap before the token `id`; the gap after the last token for the
    /// identifier one past it.
    pub fn gap_before(&self, id: TokenId) -> (result: &Gap)
        requires
            id.0 < self.gaps@.len(),
        ensures
            *result == self.gaps@[id.0 as int],
    {
        &self.gaps[id.index()]
    }

    /// The token after `id`, where there is one.
    pub open spec fn next_token_spec(self, id: TokenId) -> Option<TokenId> {
        if id.0 + 1 < self.tokens@.len() {
            Some(TokenId((id.0 + 1) as usize))
        } else {
            None
        }
    }

    /// The token after `id`, where there is one.
    pub fn next_token(&self, id: TokenId) -> (result: Option<TokenId>)
        ensures
            result == self.next_token_spec(id),
    {
        if id.0 < self.tokens.len() && id.0 + 1 < self.tokens.len() {
            Some(TokenId(id.0 + 1))
        } else {
            None
        }
    }

    /// The token before `id`, where there is one.
    pub open spec fn previous_token_spec(self, id: TokenId) -> Option<TokenId> {
        if 0 < id.0 && id.0 - 1 < self.tokens@.len() {
            Some(TokenId((id.0 - 1) as usize))
        } else {
            None
        }
    }

    /// The token before `id`, where there is one.
    pub fn previous_token(&self, id: TokenId) -> (result: Option<TokenId>)
        ensures
            result == self.previous_token_spec(id),
    {
        if 0 < id.0 && id.0 - 1 < self.tokens.len() {
            Some(TokenId(id.0 - 1))
        } else {
            None
        }
    }

    /// The token that starts right after the boundary `boundary`, where
    /// there is one: boundary `i` lies before token `i`.
    pub open spec fn token_at_spec(self, boundary: TokenId) -> Option<TokenId> {
        if boundary.0 < self.tokens@.len() {
            Some(boundary)
        } else {
            None
        }
    }

    /// The token that starts right after the boundary `boundary`.
    pub fn token_at(&self, boundary: TokenId) -> (result: Option<TokenId>)
        ensures
            result == self.token_at_spec(boundary),
    {
        if boundary.0 < self.tokens.len() {
            Some(boundary)
        } else {
            None
        }
    }

    /// The tokens from boundary `start` to boundary `end`; fails where they
    /// are out of order or past the end.
    pub open spec fn span_spec(self, start: TokenId, end: TokenId) -> Result<TokenSpan, Seq<char>> {
        if start.0 <= end.0 && end.0 <= self.tokens@.len() {
            Ok(TokenSpan { start, end })
        } else {
            Err("token span is out of order or past the end"@)
        }
    }

    /// The tokens from boundary `start` to boundary `end`.
    pub fn span(&self, start: TokenId, end: TokenId) -> (result: Result<TokenSpan, FormatError>)
        ensures
            match result {
                Ok(span) => self.span_spec(start, end) == Ok::<TokenSpan, Seq<char>>(span),
                Err(FormatError::Internal(message)) => self.span_spec(start, end) == Err::<TokenSpan, Seq<
                    char,
                >>(message@),
                Err(_) => false,
            },
    {
        if start.0 <= end.0 && end.0 <= self.tokens.len() {
            Ok(TokenSpan { start, end })
        } else {
            Err(FormatError::Internal(String::from_str("token span is out of order or past the end")))
        }
    }

    /// The token that starts at the source offset `offset`.
    pub fn token_id_at_offset(&self, offset: usize) -> (result: Result<TokenId, FormatError>)
        ensures
            match result {
                Ok(id) => self.token_by_offset@.contains_key(offset) && id == self.token_by_offset@[offset],
                Err(FormatError::Internal(message)) => !self.token_by_offset@.contains_key(offset)
                    && message@ == "syntax token at source offset "@ + decimal(offset as nat)
                    + " has no significant token ID"@,
                Err(_) => false,
            },
    {
        proof {
            broadcast use vstd::std_specs::hash::group_hash_axioms;
        }
        match self.token_by_offset.get(&offset) {
            Some(id) => Ok(*id),
            None => {
                let mut message = String::from_str("syntax token at source offset ");
                push_decimal(&mut message, offset);
                message.append(" has no significant token ID");
                Err(FormatError::Internal(message))
            },
        }
    }
}

/// Whether the gap `gap` lies strictly inside `span`.
pub fn contains_gap(span: TokenSpan, gap: usize) -> (result: bool)
    ensures
        result == (span.start.0 < gap && gap < span.end.0),
{
    span.start.index() < gap && gap < span.end.index()
}

/// Where the tokens are in strictly increasing source order, each token's
/// start maps to the token.
pub proof fn lemma_offset_map_increasing(tokens: Seq<Token>)
    requires
        forall|i: int, j: int| 0 <= i < j < tokens.len() ==> tokens[i].start < tokens[j].start,
    ensures
        forall|i: int|
            0 <= i < tokens.len() ==> offset_map(tokens).contains_key(#[trigger] tokens[i].start)
                && offset_map(tokens)[tokens[i].start] == TokenId(i as usize),
        forall|k: usize|
            offset_map(tokens).contains_key(k) ==> exists|i: int|
                0 <= i < tokens.len() && #[trigger] tokens[i].start == k,
    decreases tokens.len(),
{
    if tokens.len() > 0 {
        let front = tokens.drop_last();
        lemma_offset_map_increasing(front);
        assert forall|i: int|
            0 <= i < tokens.len() implies offset_map(tokens).contains_key(#[trigger] tokens[i].start)
            && offset_map(tokens)[tokens[i].start] == TokenId(i as usize) by {
            if i < tokens.len() - 1 {
                assert(front[i] == tokens[i]);
            }
        }
        assert forall|k: usize| offset_map(tokens).contains_key(k) implies exists|i: int|
            0 <= i < tokens.len() && #[trigger] tokens[i].start == k by {
            if k == tokens.last().start {
                assert(tokens[tokens.len() - 1].start == k);
            } else {
                assert(offset_map(front).contains_key(k));
                let i = choose|i: int| 0 <= i < front.len() && #[trigger] front[i].start == k;
                assert(front[i] == tokens[i]);
                assert(tokens[i].start == k);
            }
        }
    }
}

/// Whether every significant raw token covers at least one byte.
pub open spec fn significant_tokens_nonempty(raws: Seq<RawToken>) -> bool {
    forall|i: int| 0 <= i < raws.len() && #[trigger] raws[i].class is Significant ==> raws[i].start < raws[i].end
}

/// The tokens of a scan start in strictly increasing order, each at or after
/// the end of the previous one.
proof fn lemma_scan_order(raws: Seq<RawToken>, n: nat)
    requires
        n <= raws.len(),
        well_formed_raws(raws),
        significant_tokens_nonempty(raws),
    ensures
        scan_upto(raws, n) matches Ok(s) ==> {
            &&& forall|i: int, j: int| 0 <= i < j < s.tokens.len() ==> s.tokens[i].start < s.tokens[j].start
            &&& forall|i: int| 0 <= i < s.tokens.len() ==> #[trigger] s.tokens[i].start < s.last_end
        },
    decreases n,
{
    if n > 0 {
        lemma_scan_order(raws, (n - 1) as nat);
        let raw = raws[n - 1];
        assert(raw.start <= raw.end);
    }
}

/// A scan of a lossless tree whose significant tokens are not empty finds
/// each token again by its start.
pub proof fn law_token_found_by_start(raws: Seq<RawToken>, stream: TokenStream, i: int)
    requires
        well_formed_raws(raws),
        significant_tokens_nonempty(raws),
        scan_upto(raws, raws.len()) matches Ok(s) && stream.holds_scan(s),
        0 <= i < stream.tokens@.len(),
    ensures
        stream.token_by_offset@.contains_key(stream.tokens@[i].start),
        stream.token_by_offset@[stream.tokens@[i].start] == TokenId(i as usize),
{
    lemma_scan_order(raws, raws.len());
    lemma_offset_map_increasing(stream.tokens@);
}


/// The number of comments held by `gaps`.
pub open spec fn gap_comment_total(gaps: Seq<Gap>) -> nat
    decreases gaps.len(),
{
    if gaps.len() == 0 {
        0
    } else {
        gap_comment_total(gaps.drop_last()) + gaps.last().comments@.len()
    }
}

/// The number of comments held by gap values.
pub open spec fn view_comment_total(gaps: Seq<GapView>) -> nat
    decreases gaps.len(),
{
    if gaps.len() == 0 {
        0
    } else {
        view_comment_total(gaps.drop_last()) + gaps.last().comments.len()
    }
}

proof fn lemma_scan_counts_comments(raws: Seq<RawToken>, n: nat)
    ensures
        scan_upto(raws, n) matches Ok(s) ==> s.comments == view_comment_total(s.gaps) + s.open.len(),
    decreases n,
{
    if n > 0 {
        lemma_scan_counts_comments(raws, (n - 1) as nat);
        if let Ok(s) = scan_upto(raws, (n - 1) as nat) {
            if let Ok(t) = scan_step(s, raws[n - 1]) {
                if t.gaps.len() > s.gaps.len() {
                    assert(t.gaps.drop_last() =~= s.gaps);
                } else {
                    assert(t.gaps =~= s.gaps);
                }
            }
        }
    }
}

proof fn lemma_comment_totals(gaps: Seq<Gap>)
    ensures
        gap_comment_total(gaps) == view_comment_total(gaps.map_values(|g: Gap| g@)),
    decreases gaps.len(),
{
    if gaps.len() > 0 {
        lemma_comment_totals(gaps.drop_last());
        assert(gaps.drop_last().map_values(|g: Gap| g@) =~= gaps.map_values(|g: Gap| g@).drop_last());
    }
}

/// The comments a scan counts are exactly the comments its gaps hold.
pub proof fn law_comment_count_matches_gaps(raws: Seq<RawToken>, stream: TokenStream)
    requires
        scan_upto(raws, raws.len()) matches Ok(s) && stream.holds_scan(s),
    ensures
        stream.comment_count == gap_comment_total(stream.gaps@),
{
    let s = scan_upto(raws, raws.len())->Ok_0;
    lemma_scan_counts_comments(raws, raws.len());
    lemma_comment_totals(stream.gaps@);
    assert(final_gaps(s).drop_last() =~= s.gaps);
}


/// The significant tokens among the first `n` raw tokens, in order.
pub open spec fn significant_of(raws: Seq<RawToken>, n: nat) -> Seq<Token>
    decreases n,
{
    if n == 0 {
        seq![]
    } else if raws[n - 1].class is Significant {
        significant_of(raws, (n - 1) as nat).push(Token { text: raws[n - 1].text, start: raws[n - 1].start })
    } else {
        significant_of(raws, (n - 1) as nat)
    }
}

proof fn lemma_scan_tokens(raws: Seq<RawToken>, n: nat)
    ensures
        scan_upto(raws, n) matches Ok(s) ==> s.tokens == significant_of(raws, n),
    decreases n,
{
    if n > 0 {
        lemma_scan_tokens(raws, (n - 1) as nat);
    }
}

/// A successful scan keeps exactly the significant tokens, in source order,
/// with one gap more than tokens.
pub proof fn law_scan_keeps_significant_tokens(raws: Seq<RawToken>, stream: TokenStream)
    requires
        scan_upto(raws, raws.len()) matches Ok(s) && stream.holds_scan(s),
    ensures
        stream.tokens@ == significant_of(raws, raws.len()),
        stream.gaps@.len() == stream.tokens@.len() + 1,
{
    lemma_scan_tokens(raws, raws.len());
}

} // verus!
