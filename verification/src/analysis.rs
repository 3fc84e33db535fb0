//! Facts about significant tokens that guide the layout: which delimiters
//! pair up, and which syntactic roles a token plays.
use vstd::prelude::*;

use crate::numeral::decimal;
use crate::field_access::shifted;
use crate::ordering::{DocumentPlan, ImportGroupPlan};
use crate::token_stream::{offset_map, FormatError, Token, TokenId, TokenStream};

verus! {

broadcast use vstd::std_specs::vec::group_vec_axioms;

/// How the contents between two delimiters are laid out.
#[derive(Debug, Clone, Copy, PartialEq, Eq, Structural)]
pub enum DelimiterStyle {
    Block,
    Braced,
    Group,
    /// The contents fill lines, the closer on its own line when broken.
    Fill,
    /// As `Fill`, with a space inside each delimiter when flat.
    FillBraced,
    /// As `Fill`, without a trailing comma when broken.
    Hug,
    /// The contents one per line when broken.
    Vertical,
}

/// The kind of item list that a token ends an item of.
#[derive(Debug, Clone, Copy, PartialEq, Eq, Structural)]
pub enum ItemBoundary {
    Document,
    Module,
    Block,
}

/// A set of roles of a token, one bit each.
#[derive(Debug, Clone, Copy, Default)]
pub struct TokenFlags(pub u8);

/// The token opens a list that may end with a comma.
pub const TRAILING_COMMA: u8 = 1;
/// The token belongs to generic parameters or arguments.
pub const GENERIC: u8 = 2;
/// The token is a prefix operator.
pub const PREFIX_OPERATOR: u8 = 4;
/// The token opens a list attached to what precedes it, as a call does.
pub const ATTACHED_OPENER: u8 = 8;
/// The token starts an absolute path.
pub const ABSOLUTE_PATH_START: u8 = 16;

impl TokenFlags {
    /// Adds the roles of `flag`.
    pub fn insert(&mut self, flag: u8)
        ensures
            final(self).0 == old(self).0 | flag,
    {
        self.0 = self.0 | flag;
    }

    /// Whether any role of `flag` is set.
    pub fn contains(self, flag: u8) -> (result: bool)
        ensures
            result == (self.0 & flag != 0),
    {
        self.0 & flag != 0
    }
}

/// Adding roles keeps every role that was set, and a role is set afterwards
/// exactly when it was set before or was added.
pub proof fn law_insert_keeps_flags(before: u8, added: u8, role: u8)
    ensures
        ((before | added) & role != 0) == ((before & role != 0) || (added & role != 0)),
{
    assert(((before | added) & role != 0) == ((before & role != 0) || (added & role != 0)))
        by (bit_vector);
}

/// What the layout knows of one significant token.
#[derive(Debug, Clone)]
pub struct TokenFacts {
    /// The delimiter that closes the one this token opens.
    pub pair: Option<TokenId>,
    pub delimiter_style: Option<DelimiterStyle>,
    pub item_boundary: Option<ItemBoundary>,
    /// The last token of the expression group that this token starts.
    pub group_end: Option<TokenId>,
    pub binary_operators: Vec<TokenId>,
    /// The operators at which the expression group that this token starts
    /// may break, with their nesting depths.
    pub continuation_operators: Vec<ContinuationOperator>,
    pub flags: TokenFlags,
}

/// An operator at which an expression group may break, and how deeply it
/// is nested in the group.
#[derive(Debug, Clone, Copy, PartialEq, Eq, Structural)]
pub struct ContinuationOperator {
    pub token: TokenId,
    pub depth: usize,
}

impl Default for TokenFacts {
    fn default() -> (result: Self)
        ensures
            result.pair is None,
            result.delimiter_style is None,
            result.item_boundary is None,
            result.group_end is None,
            result.binary_operators@.len() == 0,
            result.continuation_operators@.len() == 0,
            result.flags.0 == 0,
    {
        TokenFacts {
            pair: None,
            delimiter_style: None,
            item_boundary: None,
            group_end: None,
            binary_operators: Vec::new(),
            continuation_operators: Vec::new(),
            flags: TokenFlags(0),
        }
    }
}

impl TokenFacts {
    pub fn supports_trailing_comma(&self) -> (result: bool)
        ensures
            result == (self.flags.0 & TRAILING_COMMA != 0),
    {
        self.flags.contains(TRAILING_COMMA)
    }

    pub fn is_generic(&self) -> (result: bool)
        ensures
            result == (self.flags.0 & GENERIC != 0),
    {
        self.flags.contains(GENERIC)
    }

    pub fn is_prefix_operator(&self) -> (result: bool)
        ensures
            result == (self.flags.0 & PREFIX_OPERATOR != 0),
    {
        self.flags.contains(PREFIX_OPERATOR)
    }

    pub fn is_attached_opener(&self) -> (result: bool)
        ensures
            result == (self.flags.0 & ATTACHED_OPENER != 0),
    {
        self.flags.contains(ATTACHED_OPENER)
    }

    pub fn is_absolute_path_start(&self) -> (result: bool)
        ensures
            result == (self.flags.0 & ABSOLUTE_PATH_START != 0),
    {
        self.flags.contains(ABSOLUTE_PATH_START)
    }
}

// ---------------------------------------------------------------------------
// Pairing delimiters.

/// The shape of a delimiter.
#[derive(Debug, Clone, Copy, PartialEq, Eq, Structural)]
pub enum Bracket {
    Paren,
    Square,
    Curly,
}

/// A delimiter token: an opener or a closer of a shape.
#[derive(Debug, Clone, Copy, PartialEq, Eq, Structural)]
pub enum Delimiter {
    Open(Bracket),
    Close(Bracket),
}

/// The delimiter that a token's text spells, if any.
pub open spec fn delimiter_of(text: Seq<char>) -> Option<Delimiter> {
    if text.len() != 1 {
        None
    } else if text[0] == '(' {
        Some(Delimiter::Open(Bracket::Paren))
    } else if text[0] == '[' {
        Some(Delimiter::Open(Bracket::Square))
    } else if text[0] == '{' {
        Some(Delimiter::Open(Bracket::Curly))
    } else if text[0] == ')' {
        Some(Delimiter::Close(Bracket::Paren))
    } else if text[0] == ']' {
        Some(Delimiter::Close(Bracket::Square))
    } else if text[0] == '}' {
        Some(Delimiter::Close(Bracket::Curly))
    } else {
        None
    }
}

/// How pairing the delimiters of a token sequence ends.
#[derive(Debug, Clone, Copy, PartialEq, Eq, Structural)]
pub enum PairOutcome {
    Balanced,
    /// A closer came with no opener left.
    NoOpener,
    /// A closer came whose shape differs from the innermost opener's.
    Mismatched,
    /// An opener was never closed.
    Unclosed,
}

/// Pairs the delimiters of `tokens` from index `i` on, with `stack` the
/// open delimiters and `pairs` the pairs found so far: each opener's index
/// mapped to its closer's. The pairs are those found up to the point where
/// pairing ends.
pub open spec fn pair_run(
    tokens: Seq<Token>,
    i: nat,
    stack: Seq<(Bracket, nat)>,
    pairs: Map<nat, nat>,
) -> (Map<nat, nat>, PairOutcome)
    decreases tokens.len() - i,
{
    if i >= tokens.len() {
        (pairs, if stack.len() == 0 {
            PairOutcome::Balanced
        } else {
            PairOutcome::Unclosed
        })
    } else {
        match delimiter_of(tokens[i as int].text@) {
            Some(Delimiter::Open(shape)) => pair_run(tokens, i + 1, stack.push((shape, i)), pairs),
            Some(Delimiter::Close(shape)) => if stack.len() == 0 {
                (pairs, PairOutcome::NoOpener)
            } else if stack.last().0 != shape {
                (pairs, PairOutcome::Mismatched)
            } else {
                pair_run(tokens, i + 1, stack.drop_last(), pairs.insert(stack.last().1, i))
            },
            None => pair_run(tokens, i + 1, stack, pairs),
        }
    }
}

/// The pairs and the outcome of pairing the delimiters of `tokens`.
pub open spec fn delimiter_pairs(tokens: Seq<Token>) -> (Map<nat, nat>, PairOutcome) {
    pair_run(tokens, 0, seq![], Map::empty())
}

/// The message of a failed pairing.
pub open spec fn pair_message(outcome: PairOutcome) -> Seq<char> {
    match outcome {
        PairOutcome::NoOpener => "closing delimiter has no opener"@,
        PairOutcome::Mismatched => "mismatched delimiters in valid syntax"@,
        _ => "opening delimiter has no closer"@,
    }
}

/// The delimiter that `text` spells.
fn delimiter_at(text: &String) -> (result: Option<Delimiter>)
    ensures
        result == delimiter_of(text@),
{
    let s = text.as_str();
    if s.unicode_len() != 1 {
        return None;
    }
    let c = s.get_char(0);
    if c == '(' {
        Some(Delimiter::Open(Bracket::Paren))
    } else if c == '[' {
        Some(Delimiter::Open(Bracket::Square))
    } else if c == '{' {
        Some(Delimiter::Open(Bracket::Curly))
    } else if c == ')' {
        Some(Delimiter::Close(Bracket::Paren))
    } else if c == ']' {
        Some(Delimiter::Close(Bracket::Square))
    } else if c == '}' {
        Some(Delimiter::Close(Bracket::Curly))
    } else {
        None
    }
}

/// Whether `open` and `close` are the two delimiters of one shape.
pub fn delimiters_match(open: Delimiter, close: Delimiter) -> (result: bool)
    ensures
        result == (open matches Delimiter::Open(a) && close matches Delimiter::Close(b) && a == b),
{
    match (open, close) {
        (Delimiter::Open(a), Delimiter::Close(b)) => a == b,
        _ => false,
    }
}

/// Records in `facts` the closer of each opening delimiter, in the order the
/// closers come; fails on a closer with no opener, on a closer of another
/// shape than the innermost opener, and on an opener left unclosed. The
/// pairs found before a failure stay recorded.
pub fn pair_delimiters(stream: &TokenStream, facts: &mut Vec<TokenFacts>) -> (result: Result<(), FormatError>)
    requires
        old(facts)@.len() == stream.tokens@.len(),
    ensures
        final(facts)@.len() == old(facts)@.len(),
        forall|j: int|
            0 <= j < final(facts)@.len() ==> {
                let (pairs, _) = delimiter_pairs(stream.tokens@);
                let before = old(facts)@[j];
                let after = #[trigger] final(facts)@[j];
                &&& after.pair == if pairs.contains_key(j as nat) {
                    Some(TokenId(pairs[j as nat] as usize))
                } else {
                    before.pair
                }
                &&& after.delimiter_style == before.delimiter_style
                &&& after.item_boundary == before.item_boundary
                &&& after.group_end == before.group_end
                &&& after.binary_operators == before.binary_operators
                &&& after.continuation_operators == before.continuation_operators
                &&& after.flags == before.flags
            },
        match result {
            Ok(()) => delimiter_pairs(stream.tokens@).1 == PairOutcome::Balanced,
            Err(FormatError::Internal(message)) => {
                let outcome = delimiter_pairs(stream.tokens@).1;
                outcome != PairOutcome::Balanced && message@ == pair_message(outcome)
            },
            Err(_) => false,
        },
{
    let ghost tokens = stream.tokens@;
    let ghost original = facts@;
    let mut stack: Vec<(Bracket, usize)> = Vec::new();
    let ghost mut pairs: Map<nat, nat> = Map::empty();
    let mut index: usize = 0;
    proof {
        assert(stack@.map_values(|e: (Bracket, usize)| (e.0, e.1 as nat)) =~= Seq::<(Bracket, nat)>::empty());
    }
    while index < stream.tokens.len()
        invariant
            tokens == stream.tokens@,
            original == old(facts)@,
            index <= tokens.len(),
            facts@.len() == original.len(),
            original.len() == tokens.len(),
            delimiter_pairs(tokens) == pair_run(
                tokens,
                index as nat,
                stack@.map_values(|e: (Bracket, usize)| (e.0, e.1 as nat)),
                pairs,
            ),
            forall|k: int| 0 <= k < stack@.len() ==> #[trigger] stack@[k].1 < index,
            forall|k: nat| #[trigger] pairs.contains_key(k) ==> k < index && pairs[k] < index,
            forall|j: int|
                0 <= j < facts@.len() ==> {
                    let before = original[j];
                    let after = #[trigger] facts@[j];
                    &&& after.pair == if pairs.contains_key(j as nat) {
                        Some(TokenId(pairs[j as nat] as usize))
                    } else {
                        before.pair
                    }
                    &&& after.delimiter_style == before.delimiter_style
                    &&& after.item_boundary == before.item_boundary
                    &&& after.group_end == before.group_end
                    &&& after.binary_operators == before.binary_operators
                    &&& after.continuation_operators == before.continuation_operators
                    &&& after.flags == before.flags
                },
        decreases tokens.len() - index,
    {
        let ghost view = stack@.map_values(|e: (Bracket, usize)| (e.0, e.1 as nat));
        match delimiter_at(&stream.tokens[index].text) {
            Some(Delimiter::Open(shape)) => {
                stack.push((shape, index));
                proof {
                    assert(stack@.map_values(|e: (Bracket, usize)| (e.0, e.1 as nat)) =~= view.push(
                        (shape, index as nat),
                    ));
                }
            },
            Some(Delimiter::Close(shape)) => {
                let top = stack.pop();
                match top {
                    None => {
                        return Err(FormatError::Internal(String::from_str("closing delimiter has no opener")));
                    },
                    Some((open, open_index)) => {
                        if !delimiters_match(Delimiter::Open(open), Delimiter::Close(shape)) {
                            return Err(
                                FormatError::Internal(String::from_str("mismatched delimiters in valid syntax")),
                            );
                        }
                        proof {
                            assert(view.last() == (open, open_index as nat));
                            assert(stack@.map_values(|e: (Bracket, usize)| (e.0, e.1 as nat)) =~= view.drop_last());
                            pairs = pairs.insert(open_index as nat, index as nat);
                        }
                        facts[open_index].pair = Some(TokenId(index));
                    },
                }
            },
            None => {},
        }
        index += 1;
    }
    if stack.len() != 0 {
        return Err(FormatError::Internal(String::from_str("opening delimiter has no closer")));
    }
    Ok(())
}


/// Whether the tokens at `open` and `close` are an opener and, after it, a
/// closer of the same shape.
pub open spec fn is_delimiter_pair(tokens: Seq<Token>, open: nat, close: nat) -> bool {
    &&& open < close < tokens.len()
    &&& delimiter_of(tokens[open as int].text@) matches Some(Delimiter::Open(shape))
        && delimiter_of(tokens[close as int].text@) == Some(Delimiter::Close(shape))
}

proof fn lemma_pair_run_pairs(tokens: Seq<Token>, i: nat, stack: Seq<(Bracket, nat)>, pairs: Map<nat, nat>)
    requires
        i <= tokens.len(),
        forall|k: int|
            0 <= k < stack.len() ==> #[trigger] stack[k].1 < i && delimiter_of(tokens[stack[k].1 as int].text@)
                == Some(Delimiter::Open(stack[k].0)),
        forall|o: nat| #[trigger] pairs.contains_key(o) ==> is_delimiter_pair(tokens, o, pairs[o]),
    ensures
        forall|o: nat|
            #[trigger] pair_run(tokens, i, stack, pairs).0.contains_key(o) ==> is_delimiter_pair(
                tokens,
                o,
                pair_run(tokens, i, stack, pairs).0[o],
            ),
    decreases tokens.len() - i,
{
    if i < tokens.len() {
        match delimiter_of(tokens[i as int].text@) {
            Some(Delimiter::Open(shape)) => {
                let next = stack.push((shape, i));
                assert forall|k: int| 0 <= k < next.len() implies #[trigger] next[k].1 < i + 1
                    && delimiter_of(tokens[next[k].1 as int].text@) == Some(Delimiter::Open(next[k].0)) by {
                    if k < stack.len() {
                        assert(next[k] == stack[k]);
                    }
                }
                lemma_pair_run_pairs(tokens, i + 1, next, pairs);
                assert(pair_run(tokens, i, stack, pairs) == pair_run(tokens, i + 1, next, pairs));
            },
            Some(Delimiter::Close(shape)) => {
                if stack.len() > 0 && stack.last().0 == shape {
                    let next = stack.drop_last();
                    let top = stack.last();
                    let more = pairs.insert(top.1, i);
                    assert(stack[stack.len() - 1] == top);
                    assert(is_delimiter_pair(tokens, top.1, i));
                    assert forall|k: int| 0 <= k < next.len() implies #[trigger] next[k].1 < i + 1
                        && delimiter_of(tokens[next[k].1 as int].text@) == Some(Delimiter::Open(next[k].0)) by {
                        assert(next[k] == stack[k]);
                    }
                    assert forall|o: nat| #[trigger] more.contains_key(o) implies is_delimiter_pair(tokens, o, more[o]) by {
                        if o != top.1 {
                            assert(pairs.contains_key(o));
                        }
                    }
                    lemma_pair_run_pairs(tokens, i + 1, next, more);
                    assert(pair_run(tokens, i, stack, pairs) == pair_run(tokens, i + 1, next, more));
                } else {
                    assert(pair_run(tokens, i, stack, pairs).0 == pairs);
                }
            },
            None => {
                lemma_pair_run_pairs(tokens, i + 1, stack, pairs);
                assert(pair_run(tokens, i, stack, pairs) == pair_run(tokens, i + 1, stack, pairs));
            },
        }
    } else {
        assert(pair_run(tokens, i, stack, pairs).0 == pairs);
    }
}

/// Every pair that pairing records joins an opener to a later closer of the
/// same shape.
pub proof fn law_pairs_join_matching_delimiters(tokens: Seq<Token>, open: nat)
    requires
        delimiter_pairs(tokens).0.contains_key(open),
    ensures
        is_delimiter_pair(tokens, open, delimiter_pairs(tokens).0[open]),
{
    lemma_pair_run_pairs(tokens, 0, seq![], Map::empty());
}


// ---------------------------------------------------------------------------
// Roles from the syntax tree.

/// What a token of a syntax node is to the analysis.
#[derive(Debug, Clone, Copy, PartialEq, Eq, Structural)]
pub enum Mark {
    OpenParen,
    OpenBracket,
    OpenBrace,
    LessThan,
    GreaterThan,
    Comma,
    /// `::`.
    PathSeparator,
    /// One of the prefix operators.
    PrefixOperator,
    Other,
}

/// A non-trivia token of a syntax node: where it starts and what it is.
#[derive(Debug, Clone, Copy, PartialEq, Eq, Structural)]
pub struct NodeToken {
    pub start: usize,
    pub mark: Mark,
}

/// The kinds of syntax node that give tokens roles.
#[derive(Debug, Clone, Copy, PartialEq, Eq, Structural)]
pub enum NodeKind {
    Block,
    ModuleItem,
    StructItem,
    StructInitializerExpr,
    StructBinding,
    PairExpr,
    PairType,
    PairBinding,
    ListExpr,
    ListType,
    ListBinding,
    ImportPathSegment,
    GenericParameters,
    GenericArguments,
    PrefixExpr,
    FunctionItem,
    FunctionCallExpr,
    LambdaExpr,
    LambdaType,
    PathExpr,
    PathType,
    ImportPath,
    Other,
}

/// A syntax node as the analysis reads it: its kind, its own non-trivia
/// tokens, and every non-trivia token within it, each in source order.
#[derive(Debug, Clone)]
pub struct NodeSummary {
    pub kind: NodeKind,
    pub direct: Vec<NodeToken>,
    pub significant: Vec<NodeToken>,
}

/// What the analysis of a node does to the facts of the token that starts
/// at an offset.
#[derive(Debug, Clone, Copy, PartialEq, Eq, Structural)]
pub enum Effect {
    /// Sets the delimiter style and adds roles.
    Style(usize, DelimiterStyle, u8),
    /// Adds roles.
    Roles(usize, u8),
    /// Gives the opener at the first offset the trailing comma role and
    /// pairs it with the closer at the second.
    Pair(usize, usize),
}

/// The parts of a token's facts that the analysis of nodes sets.
pub struct Touch {
    pub pair: Option<TokenId>,
    pub style: Option<DelimiterStyle>,
    pub flags: u8,
}

pub open spec fn touches_of(facts: Seq<TokenFacts>) -> Seq<Touch> {
    facts.map_values(|f: TokenFacts| Touch { pair: f.pair, style: f.delimiter_style, flags: f.flags.0 })
}

/// The start of the first of `tokens` with a mark among `a`, `b` and `c`.
pub open spec fn first_marked(tokens: Seq<NodeToken>, a: Mark, b: Mark, c: Mark) -> Option<usize>
    decreases tokens.len(),
{
    if tokens.len() == 0 {
        None
    } else if tokens[0].mark == a || tokens[0].mark == b || tokens[0].mark == c {
        Some(tokens[0].start)
    } else {
        first_marked(tokens.drop_first(), a, b, c)
    }
}

/// The generic role for each `<`, `>` and `,` among `tokens`.
pub open spec fn generic_effects(tokens: Seq<NodeToken>) -> Seq<Effect>
    decreases tokens.len(),
{
    if tokens.len() == 0 {
        seq![]
    } else {
        let rest = generic_effects(tokens.drop_first());
        let m = tokens[0].mark;
        if m == Mark::LessThan || m == Mark::GreaterThan || m == Mark::Comma {
            seq![Effect::Roles(tokens[0].start, GENERIC)] + rest
        } else {
            rest
        }
    }
}

pub open spec fn style_at(start: Option<usize>, style: DelimiterStyle, roles: u8) -> Seq<Effect> {
    match start {
        Some(o) => seq![Effect::Style(o, style, roles)],
        None => seq![],
    }
}

pub open spec fn roles_at(start: Option<usize>, roles: u8) -> Seq<Effect> {
    match start {
        Some(o) => seq![Effect::Roles(o, roles)],
        None => seq![],
    }
}

/// What the analysis of `node` does, in order: blocks, modules and structs
/// lay out their first brace as a block, struct literals and bindings as
/// braced; lists, pairs and import segments let their first own opener take
/// a trailing comma; generic lists mark their angle brackets and commas, and
/// pair their own `<` and `>`; prefix expressions mark their operator;
/// functions, calls and lambdas mark their own `(` as attached; paths mark a
/// leading `::`.
pub open spec fn node_effects(kind: NodeKind, direct: Seq<NodeToken>, significant: Seq<NodeToken>) -> Seq<Effect> {
    let brace = first_marked(significant, Mark::OpenBrace, Mark::OpenBrace, Mark::OpenBrace);
    match kind {
        NodeKind::Block | NodeKind::ModuleItem => style_at(brace, DelimiterStyle::Block, 0),
        NodeKind::StructItem => style_at(brace, DelimiterStyle::Block, TRAILING_COMMA),
        NodeKind::StructInitializerExpr | NodeKind::StructBinding => style_at(
            brace,
            DelimiterStyle::Braced,
            TRAILING_COMMA,
        ),
        NodeKind::PairExpr
        | NodeKind::PairType
        | NodeKind::PairBinding
        | NodeKind::ListExpr
        | NodeKind::ListType
        | NodeKind::ListBinding
        | NodeKind::ImportPathSegment => roles_at(
            first_marked(direct, Mark::OpenParen, Mark::OpenBracket, Mark::OpenBrace),
            TRAILING_COMMA,
        ),
        NodeKind::GenericParameters | NodeKind::GenericArguments => generic_effects(significant) + if direct.len()
            > 0 && direct[0].mark == Mark::LessThan && direct.last().mark == Mark::GreaterThan {
            seq![Effect::Pair(direct[0].start, direct.last().start)]
        } else {
            seq![]
        },
        NodeKind::PrefixExpr => roles_at(
            first_marked(significant, Mark::PrefixOperator, Mark::PrefixOperator, Mark::PrefixOperator),
            PREFIX_OPERATOR,
        ),
        NodeKind::FunctionItem | NodeKind::FunctionCallExpr | NodeKind::LambdaExpr | NodeKind::LambdaType => roles_at(
            first_marked(direct, Mark::OpenParen, Mark::OpenParen, Mark::OpenParen),
            ATTACHED_OPENER | TRAILING_COMMA,
        ),
        NodeKind::PathExpr | NodeKind::PathType | NodeKind::ImportPath => if significant.len() > 0
            && significant[0].mark == Mark::PathSeparator {
            seq![Effect::Roles(significant[0].start, ABSOLUTE_PATH_START)]
        } else {
            seq![]
        },
        NodeKind::Other => seq![],
    }
}

/// The effects of `nodes`, node by node.
pub open spec fn all_effects(nodes: Seq<NodeSummary>) -> Seq<Effect>
    decreases nodes.len(),
{
    if nodes.len() == 0 {
        seq![]
    } else {
        node_effects(nodes[0].kind, nodes[0].direct@, nodes[0].significant@) + all_effects(nodes.drop_first())
    }
}

/// The first offset of `effect` that starts no token.
pub open spec fn missing_offset(effect: Effect, offsets: Map<usize, TokenId>) -> Option<usize> {
    match effect {
        Effect::Style(o, _, _) | Effect::Roles(o, _) => if offsets.contains_key(o) {
            None
        } else {
            Some(o)
        },
        Effect::Pair(o, c) => if !offsets.contains_key(o) {
            Some(o)
        } else if !offsets.contains_key(c) {
            Some(c)
        } else {
            None
        },
    }
}

/// `touches` after `effect`.
pub open spec fn apply_effect(touches: Seq<Touch>, effect: Effect, offsets: Map<usize, TokenId>) -> Seq<Touch> {
    match effect {
        Effect::Style(o, style, roles) => {
            let i = offsets[o].0 as int;
            touches.update(i, Touch { style: Some(style), flags: touches[i].flags | roles, ..touches[i] })
        },
        Effect::Roles(o, roles) => {
            let i = offsets[o].0 as int;
            touches.update(i, Touch { flags: touches[i].flags | roles, ..touches[i] })
        },
        Effect::Pair(o, c) => {
            let i = offsets[o].0 as int;
            touches.update(i, Touch { pair: Some(offsets[c]), flags: touches[i].flags | TRAILING_COMMA, ..touches[i] })
        },
    }
}

/// `touches` after `effects` in turn, up to the first that names an offset
/// where no token starts, with that offset.
pub open spec fn run_effects(effects: Seq<Effect>, offsets: Map<usize, TokenId>, touches: Seq<Touch>) -> (
    Seq<Touch>,
    Option<usize>,
)
    decreases effects.len(),
{
    if effects.len() == 0 {
        (touches, None)
    } else {
        match missing_offset(effects[0], offsets) {
            Some(o) => (touches, Some(o)),
            None => run_effects(effects.drop_first(), offsets, apply_effect(touches, effects[0], offsets)),
        }
    }
}

proof fn lemma_run_stops(effects: Seq<Effect>, offsets: Map<usize, TokenId>, touches: Seq<Touch>)
    requires
        effects.len() > 0,
        missing_offset(effects[0], offsets) is Some,
    ensures
        run_effects(effects, offsets, touches) == (touches, missing_offset(effects[0], offsets)),
{
}

proof fn lemma_offset_map_below(tokens: Seq<Token>, k: usize)
    requires
        offset_map(tokens).contains_key(k),
    ensures
        offset_map(tokens)[k].0 < tokens.len(),
    decreases tokens.len(),
{
    if tokens.len() > 0 && k != tokens.last().start {
        lemma_offset_map_below(tokens.drop_last(), k);
    }
}

fn first_marked_in(tokens: &Vec<NodeToken>, a: Mark, b: Mark, c: Mark) -> (result: Option<usize>)
    ensures
        result == first_marked(tokens@, a, b, c),
{
    let mut i: usize = 0;
    assert(tokens@.skip(0) =~= tokens@);
    while i < tokens.len()
        invariant
            0 <= i <= tokens.len(),
            first_marked(tokens@, a, b, c) == first_marked(tokens@.skip(i as int), a, b, c),
        decreases tokens.len() - i,
    {
        assert(tokens@.skip(i as int).drop_first() =~= tokens@.skip(i + 1));
        assert(tokens@.skip(i as int)[0] == tokens@[i as int]);
        let m = tokens[i].mark;
        if m == a || m == b || m == c {
            return Some(tokens[i].start);
        }
        i = i + 1;
    }
    None
}

fn effects_of(node: &NodeSummary) -> (result: Vec<Effect>)
    ensures
        result@ == node_effects(node.kind, node.direct@, node.significant@),
{
    let mut effects: Vec<Effect> = Vec::new();
    match node.kind {
        NodeKind::Block | NodeKind::ModuleItem | NodeKind::StructItem | NodeKind::StructInitializerExpr
        | NodeKind::StructBinding => {
            if let Some(o) = first_marked_in(&node.significant, Mark::OpenBrace, Mark::OpenBrace, Mark::OpenBrace) {
                let effect = match node.kind {
                    NodeKind::Block | NodeKind::ModuleItem => Effect::Style(o, DelimiterStyle::Block, 0),
                    NodeKind::StructItem => Effect::Style(o, DelimiterStyle::Block, TRAILING_COMMA),
                    _ => Effect::Style(o, DelimiterStyle::Braced, TRAILING_COMMA),
                };
                effects.push(effect);
            }
        },
        NodeKind::PairExpr
        | NodeKind::PairType
        | NodeKind::PairBinding
        | NodeKind::ListExpr
        | NodeKind::ListType
        | NodeKind::ListBinding
        | NodeKind::ImportPathSegment => {
            if let Some(o) = first_marked_in(&node.direct, Mark::OpenParen, Mark::OpenBracket, Mark::OpenBrace) {
                effects.push(Effect::Roles(o, TRAILING_COMMA));
            }
        },
        NodeKind::GenericParameters | NodeKind::GenericArguments => {
            let tokens = &node.significant;
            let mut i: usize = tokens.len();
            assert(generic_effects(tokens@.skip(i as int)) =~= seq![]);
            let mut rev: Vec<Effect> = Vec::new();
            while i > 0
                invariant
                    i <= tokens.len(),
                    rev@.reverse() == generic_effects(tokens@.skip(i as int)),
                decreases i,
            {
                assert(tokens@.skip(i - 1).drop_first() =~= tokens@.skip(i as int));
                assert(tokens@.skip(i - 1)[0] == tokens@[i - 1]);
                let m = tokens[i - 1].mark;
                if m == Mark::LessThan || m == Mark::GreaterThan || m == Mark::Comma {
                    let ghost before = rev@;
                    rev.push(Effect::Roles(tokens[i - 1].start, GENERIC));
                    assert(rev@.reverse() =~= seq![Effect::Roles(tokens@[i - 1].start, GENERIC)] + before.reverse());
                }
                i = i - 1;
            }
            assert(tokens@.skip(0) =~= tokens@);
            let mut k: usize = rev.len();
            assert(effects@ =~= rev@.reverse().take(0));
            while k > 0
                invariant
                    k <= rev.len(),
                    effects@ == rev@.reverse().take(rev.len() - k),
                decreases k,
            {
                effects.push(rev[k - 1]);
                assert(effects@ =~= rev@.reverse().take(rev.len() - k + 1));
                k = k - 1;
            }
            assert(effects@ =~= rev@.reverse());
            let direct = &node.direct;
            if direct.len() > 0 && direct[0].mark == Mark::LessThan && direct[direct.len() - 1].mark
                == Mark::GreaterThan {
                effects.push(Effect::Pair(direct[0].start, direct[direct.len() - 1].start));
            } else {
                assert(effects@ =~= effects@ + seq![]);
            }
        },
        NodeKind::PrefixExpr => {
            if let Some(o) = first_marked_in(
                &node.significant,
                Mark::PrefixOperator,
                Mark::PrefixOperator,
                Mark::PrefixOperator,
            ) {
                effects.push(Effect::Roles(o, PREFIX_OPERATOR));
            }
        },
        NodeKind::FunctionItem | NodeKind::FunctionCallExpr | NodeKind::LambdaExpr | NodeKind::LambdaType => {
            if let Some(o) = first_marked_in(&node.direct, Mark::OpenParen, Mark::OpenParen, Mark::OpenParen) {
                effects.push(Effect::Roles(o, ATTACHED_OPENER | TRAILING_COMMA));
            }
        },
        NodeKind::PathExpr | NodeKind::PathType | NodeKind::ImportPath => {
            if node.significant.len() > 0 && node.significant[0].mark == Mark::PathSeparator {
                effects.push(Effect::Roles(node.significant[0].start, ABSOLUTE_PATH_START));
            }
        },
        NodeKind::Other => {},
    }
    effects
}

/// Gives tokens the roles that the nodes of the syntax tree assign, node by
/// node in `nodes` order (see `node_effects`); fails at the first token
/// offset where the stream has no token, with the facts set up to it.
pub fn analyze_nodes(nodes: &Vec<NodeSummary>, stream: &TokenStream, facts: &mut Vec<TokenFacts>) -> (result: Result<
    (),
    FormatError,
>)
    requires
        stream.wf(),
        old(facts)@.len() == stream.tokens@.len(),
    ensures
        final(facts)@.len() == old(facts)@.len(),
        touches_of(final(facts)@) == run_effects(
            all_effects(nodes@),
            stream.token_by_offset@,
            touches_of(old(facts)@),
        ).0,
        forall|j: int|
            0 <= j < final(facts)@.len() ==> {
                let before = old(facts)@[j];
                let after = #[trigger] final(facts)@[j];
                &&& after.item_boundary == before.item_boundary
                &&& after.group_end == before.group_end
                &&& after.binary_operators == before.binary_operators
                &&& after.continuation_operators == before.continuation_operators
            },
        match result {
            Ok(()) => run_effects(all_effects(nodes@), stream.token_by_offset@, touches_of(old(facts)@)).1 is None,
            Err(FormatError::Internal(message)) => run_effects(
                all_effects(nodes@),
                stream.token_by_offset@,
                touches_of(old(facts)@),
            ).1 matches Some(o) && message@ == "syntax token at source offset "@ + decimal(o as nat)
                + " has no significant token ID"@,
            Err(_) => false,
        },
{
    let ghost offsets = stream.token_by_offset@;
    let ghost total = run_effects(all_effects(nodes@), offsets, touches_of(facts@));
    let ghost original = facts@;
    let mut i: usize = 0;
    assert(nodes@.skip(0) =~= nodes@);
    while i < nodes.len()
        invariant
            0 <= i <= nodes.len(),
            stream.wf(),
            offsets == stream.token_by_offset@,
            original == old(facts)@,
            total == run_effects(all_effects(nodes@), offsets, touches_of(original)),
            facts@.len() == original.len(),
            original.len() == stream.tokens@.len(),
            total == run_effects(all_effects(nodes@.skip(i as int)), offsets, touches_of(facts@)),
            forall|j: int|
                0 <= j < facts@.len() ==> {
                    let before = original[j];
                    let after = #[trigger] facts@[j];
                    &&& after.item_boundary == before.item_boundary
                    &&& after.group_end == before.group_end
                    &&& after.binary_operators == before.binary_operators
                    &&& after.continuation_operators == before.continuation_operators
                },
        decreases nodes.len() - i,
    {
        assert(nodes@.skip(i as int).drop_first() =~= nodes@.skip(i + 1));
        assert(nodes@.skip(i as int)[0] == nodes@[i as int]);
        let ghost rest = all_effects(nodes@.skip(i + 1));
        let effects = effects_of(&nodes[i]);
        let mut k: usize = 0;
        assert(effects@.skip(0) + rest =~= all_effects(nodes@.skip(i as int)));
        while k < effects.len()
            invariant
                0 <= k <= effects.len(),
                stream.wf(),
                offsets == stream.token_by_offset@,
                original == old(facts)@,
                total == run_effects(all_effects(nodes@), offsets, touches_of(original)),
                facts@.len() == original.len(),
                original.len() == stream.tokens@.len(),
                total == run_effects(effects@.skip(k as int) + rest, offsets, touches_of(facts@)),
                forall|j: int|
                    0 <= j < facts@.len() ==> {
                        let before = original[j];
                        let after = #[trigger] facts@[j];
                        &&& after.item_boundary == before.item_boundary
                        &&& after.group_end == before.group_end
                        &&& after.binary_operators == before.binary_operators
                        &&& after.continuation_operators == before.continuation_operators
                    },
            decreases effects.len() - k,
        {
            let ghost here = effects@.skip(k as int) + rest;
            assert(here.drop_first() =~= effects@.skip(k + 1) + rest);
            assert(here[0] == effects@[k as int]);
            let ghost touches = touches_of(facts@);
            match effects[k] {
                Effect::Style(o, style, roles) => {
                    let id = match stream.token_id_at_offset(o) {
                        Ok(id) => id,
                        Err(e) => {
                            proof {
                                lemma_run_stops(here, offsets, touches);
                            }
                            return Err(e);
                        },
                    };
                    proof { lemma_offset_map_below(stream.tokens@, o); }
                    let idx = id.index();
                    facts[idx].delimiter_style = Some(style);
                    facts[idx].flags = TokenFlags(facts[idx].flags.0 | roles);
                    assert(touches_of(facts@) =~= apply_effect(touches, effects@[k as int], offsets));
                },
                Effect::Roles(o, roles) => {
                    let id = match stream.token_id_at_offset(o) {
                        Ok(id) => id,
                        Err(e) => {
                            proof { lemma_run_stops(here, offsets, touches); }
                            return Err(e);
                        },
                    };
                    proof { lemma_offset_map_below(stream.tokens@, o); }
                    let idx = id.index();
                    facts[idx].flags = TokenFlags(facts[idx].flags.0 | roles);
                    assert(touches_of(facts@) =~= apply_effect(touches, effects@[k as int], offsets));
                },
                Effect::Pair(o, c) => {
                    let open = match stream.token_id_at_offset(o) {
                        Ok(id) => id,
                        Err(e) => {
                            proof { lemma_run_stops(here, offsets, touches); }
                            return Err(e);
                        },
                    };
                    let close = match stream.token_id_at_offset(c) {
                        Ok(id) => id,
                        Err(e) => {
                            proof { lemma_run_stops(here, offsets, touches); }
                            return Err(e);
                        },
                    };
                    proof { lemma_offset_map_below(stream.tokens@, o); }
                    let idx = open.index();
                    facts[idx].flags = TokenFlags(facts[idx].flags.0 | TRAILING_COMMA);
                    facts[idx].pair = Some(close);
                    assert(touches_of(facts@) =~= apply_effect(touches, effects@[k as int], offsets));
                },
            }
            k = k + 1;
        }
        assert(effects@.skip(k as int) + rest =~= rest);
        i = i + 1;
    }
    assert(all_effects(nodes@.skip(i as int)) =~= seq![]);
    Ok(())
}


// ---------------------------------------------------------------------------
// The layout.

/// What the formatter knows before it emits: the facts of each token, the
/// plan of the document's items, and the plan of each import group, found
/// by its opening brace.
pub struct Layout {
    pub facts: Vec<TokenFacts>,
    pub document: DocumentPlan,
    pub import_groups: Vec<(TokenId, ImportGroupPlan)>,
}

/// The index of the first import group plan for the brace `open`.
pub open spec fn import_plan_index(groups: Seq<(TokenId, ImportGroupPlan)>, open: TokenId) -> Option<nat>
    decreases groups.len(),
{
    if groups.len() == 0 {
        None
    } else if groups[0].0 == open {
        Some(0)
    } else {
        match import_plan_index(groups.drop_first(), open) {
            Some(i) => Some(i + 1),
            None => None,
        }
    }
}

impl Layout {
    /// The facts of the token `token`.
    pub fn facts(&self, token: TokenId) -> (result: &TokenFacts)
        requires
            token.0 < self.facts@.len(),
        ensures
            *result == self.facts@[token.0 as int],
    {
        &self.facts[token.0]
    }

    /// The index of the import group plan for the brace `open`.
    pub fn import_group_index(&self, open: TokenId) -> (result: Option<usize>)
        ensures
            match import_plan_index(self.import_groups@, open) {
                Some(i) => result matches Some(r) && r as nat == i && i < self.import_groups@.len(),
                None => result is None,
            },
    {
        let mut i: usize = 0;
        let ghost groups = self.import_groups@;
        assert(groups.skip(0) =~= groups);
        while i < self.import_groups.len()
            invariant
                groups == self.import_groups@,
                i <= groups.len(),
                import_plan_index(groups, open) == shifted(import_plan_index(groups.skip(i as int), open), i as nat),
            decreases groups.len() - i,
        {
            assert(groups.skip(i as int).drop_first() =~= groups.skip(i + 1));
            assert(groups.skip(i as int)[0] == groups[i as int]);
            if self.import_groups[i].0 == open {
                return Some(i);
            }
            i = i + 1;
        }
        assert(groups.skip(i as int) =~= Seq::<(TokenId, ImportGroupPlan)>::empty());
        None
    }
}

} // verus!
