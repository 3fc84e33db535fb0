//! Planning the order of a document's items.
use vstd::prelude::*;

use vstd::utf8::encode_utf8;
use vstd::string::StringSliceAdditionalSpecFns;

use crate::token_stream::{Comment, Gap, TokenId, TokenSpan, TokenStream, Token, copy_comments, empty_gap};
use crate::trivia::{gap_view, split_between, split_between_spec, split_file_header, split_file_header_spec};

verus! {

broadcast use vstd::std_specs::vec::group_vec_axioms;

/// The kinds of one-line item that stay together without blank lines.
#[derive(Debug, Clone, Copy, PartialEq, Eq, Structural)]
pub enum CompactGroup {
    Constant,
    TypeAlias,
    ExternDeclaration,
}

/// Whether a gap holds a blank line, between or before its comments.
pub fn gap_has_blank_line(gap: &Gap) -> (result: bool)
    ensures
        result == (gap.newlines > 1 || exists|i: int|
            0 <= i < gap.comments@.len() && #[trigger] gap.comments@[i].newlines_before > 1),
{
    if gap.newlines > 1 {
        return true;
    }
    let mut i: usize = 0;
    while i < gap.comments.len()
        invariant
            i <= gap.comments@.len(),
            forall|j: int| 0 <= j < i ==> #[trigger] gap.comments@[j].newlines_before <= 1,
        decreases gap.comments@.len() - i,
    {
        if gap.comments[i].newlines_before > 1 {
            return true;
        }
        i += 1;
    }
    false
}


// ---------------------------------------------------------------------------
// The order of texts: byte by byte, a prefix first.

/// Whether `a` comes before `b` byte by byte, a proper prefix first.
pub open spec fn bytes_less(a: Seq<u8>, b: Seq<u8>) -> bool
    decreases a.len(),
{
    if a.len() == 0 {
        b.len() > 0
    } else if b.len() == 0 {
        false
    } else if a[0] != b[0] {
        a[0] < b[0]
    } else {
        bytes_less(a.drop_first(), b.drop_first())
    }
}

/// The byte order is asymmetric and total.
pub proof fn lemma_bytes_less_total(a: Seq<u8>, b: Seq<u8>)
    ensures
        bytes_less(a, b) ==> !bytes_less(b, a),
        a != b ==> bytes_less(a, b) || bytes_less(b, a),
        !bytes_less(a, a),
    decreases a.len(),
{
    if a.len() > 0 && b.len() > 0 {
        lemma_bytes_less_total(a.drop_first(), b.drop_first());
        lemma_bytes_less_total(a.drop_first(), a.drop_first());
        if a[0] == b[0] && a != b {
            assert(a =~= seq![a[0]] + a.drop_first());
            assert(b =~= seq![b[0]] + b.drop_first());
            if a.drop_first() == b.drop_first() {
                assert(a =~= b);
            }
        }
    } else if a.len() == 0 && b.len() == 0 {
        assert(a =~= b);
    } else if a.len() > 0 {
        lemma_bytes_less_total(a.drop_first(), a.drop_first());
    }
}

/// The byte order is transitive.
pub proof fn lemma_bytes_less_transitive(a: Seq<u8>, b: Seq<u8>, c: Seq<u8>)
    requires
        bytes_less(a, b),
        bytes_less(b, c),
    ensures
        bytes_less(a, c),
    decreases a.len(),
{
    if a.len() > 0 && a[0] == b[0] && b[0] == c[0] {
        lemma_bytes_less_transitive(a.drop_first(), b.drop_first(), c.drop_first());
    }
}

/// Whether the text `a` comes before the text `b`.
fn text_less(a: &String, b: &String) -> (result: bool)
    ensures
        result == bytes_less(encode_utf8(a@), encode_utf8(b@)),
{
    let x = a.as_str().as_bytes();
    let y = b.as_str().as_bytes();
    let mut i: usize = 0;
    proof {
        assert(x@.skip(0) =~= x@);
        assert(y@.skip(0) =~= y@);
    }
    while i < x.len() && i < y.len() && x[i] == y[i]
        invariant
            i <= x@.len(),
            i <= y@.len(),
            x@ == encode_utf8(a@),
            y@ == encode_utf8(b@),
            bytes_less(x@, y@) == bytes_less(x@.skip(i as int), y@.skip(i as int)),
        decreases x@.len() - i,
    {
        proof {
            assert(x@.skip(i as int).drop_first() =~= x@.skip(i + 1));
            assert(y@.skip(i as int).drop_first() =~= y@.skip(i + 1));
        }
        i += 1;
    }
    if i == x.len() {
        i < y.len()
    } else if i == y.len() {
        false
    } else {
        x[i] < y[i]
    }
}


// ---------------------------------------------------------------------------
// Items of a document and their order.

/// What planning reads of one item of a document, besides its tokens and
/// trivia: the span of its tokens, whether it is an import, its compact
/// group and the key that identifies it.
#[derive(Debug, Clone)]
pub struct ItemSource {
    pub span: TokenSpan,
    pub is_import: bool,
    pub compact_group: Option<CompactGroup>,
    pub identity_key: String,
}

/// An item of a document with the trivia that moves with it.
#[derive(Debug, Clone)]
pub struct DocumentItem {
    pub span: TokenSpan,
    pub import_group: Option<usize>,
    pub compact_group: Option<CompactGroup>,
    pub leading: Gap,
    pub trailing: Gap,
    pub identity_key: String,
    /// The text of the item without its keyword and semicolon, a NUL, then
    /// its keyword.
    pub sort_key: String,
    pub original_index: usize,
}

/// A document's items in their new order, with the trivia before the first
/// and after the last.
#[derive(Debug)]
pub struct DocumentPlan {
    pub header: Gap,
    pub items: Vec<DocumentItem>,
    pub footer: Gap,
}

/// A path of an import group with the trivia that moves with it.
#[derive(Debug, Clone)]
pub struct ImportPathItem {
    pub span: TokenSpan,
    /// The comma after the path, where the source has one.
    pub comma: Option<TokenId>,
    pub leading: Gap,
    pub before_comma: Gap,
    pub trailing: Gap,
}

/// The paths of an import group in their new order, with the trivia after
/// the opening brace and before the closing one.
#[derive(Debug, Clone)]
pub struct ImportGroupPlan {
    pub opening: Gap,
    pub items: Vec<ImportPathItem>,
    pub closing: Gap,
}

/// Whether `a` goes before `b`: imports first, by group, then by sort key,
/// then by source position; the other items after them, in source order.
pub open spec fn item_precedes(a: DocumentItem, b: DocumentItem) -> bool {
    match (a.import_group, b.import_group) {
        (Some(x), Some(y)) => x < y || (x == y && (bytes_less(encode_utf8(a.sort_key@), encode_utf8(b.sort_key@))
            || (a.sort_key@ == b.sort_key@ && a.original_index < b.original_index))),
        (Some(_), None) => true,
        (None, Some(_)) => false,
        (None, None) => a.original_index < b.original_index,
    }
}

/// Whether each item of `items` goes before every later one.
pub open spec fn items_sorted(items: Seq<DocumentItem>) -> bool {
    forall|i: int, j: int| 0 <= i < j < items.len() ==> item_precedes(#[trigger] items[i], #[trigger] items[j])
}

/// Whether `item` is one of the first `n` of `items`.
pub open spec fn taken_from(item: DocumentItem, items: Seq<DocumentItem>, n: int) -> bool {
    exists|j: int| 0 <= j < n && #[trigger] items[j] == item
}

/// Whether no two items share a source position.
pub open spec fn distinct_positions(items: Seq<DocumentItem>) -> bool {
    forall|i: int, j: int| 0 <= i < j < items.len() ==> #[trigger] items[i].original_index != #[trigger] items[j].original_index
}

/// The order of items is a strict total order on items at distinct source
/// positions.
pub proof fn lemma_item_order(a: DocumentItem, b: DocumentItem, c: DocumentItem)
    ensures
        !item_precedes(a, a),
        item_precedes(a, b) ==> !item_precedes(b, a),
        a.original_index != b.original_index ==> item_precedes(a, b) || item_precedes(b, a),
        item_precedes(a, b) && item_precedes(b, c) ==> item_precedes(a, c),
{
    let ka = encode_utf8(a.sort_key@);
    let kb = encode_utf8(b.sort_key@);
    let kc = encode_utf8(c.sort_key@);
    lemma_bytes_less_total(ka, kb);
    lemma_bytes_less_total(kb, kc);
    lemma_bytes_less_total(ka, kc);
    if a.sort_key@ != b.sort_key@ && ka == kb {
        vstd::utf8::encode_utf8_decode_utf8(a.sort_key@);
        vstd::utf8::encode_utf8_decode_utf8(b.sort_key@);
    }
    if bytes_less(ka, kb) && bytes_less(kb, kc) {
        lemma_bytes_less_transitive(ka, kb, kc);
    }
}

/// Whether `a` goes before `b`.
fn precedes(a: &DocumentItem, b: &DocumentItem) -> (result: bool)
    ensures
        result == item_precedes(*a, *b),
{
    match (a.import_group, b.import_group) {
        (Some(x), Some(y)) => x < y || (x == y && (text_less(&a.sort_key, &b.sort_key) || (a.sort_key
            == b.sort_key && a.original_index < b.original_index))),
        (Some(_), None) => true,
        (None, Some(_)) => false,
        (None, None) => a.original_index < b.original_index,
    }
}

/// The items in order: imports first, by group, key and position, then the
/// others in source order.
fn sort_items(items: Vec<DocumentItem>) -> (result: Vec<DocumentItem>)
    requires
        distinct_positions(items@),
    ensures
        result@.to_multiset() == items@.to_multiset(),
        items_sorted(result@),
        distinct_positions(result@),
        result@.len() == items@.len(),
        forall|q: int| 0 <= q < result@.len() ==> #[trigger] taken_from(result@[q], items@, items@.len() as int),
{
    broadcast use vstd::seq_lib::group_to_multiset_ensures;

    let ghost input = items@;
    let mut out: Vec<DocumentItem> = Vec::new();
    proof {
        assert(input.take(0) =~= Seq::<DocumentItem>::empty());
    }
    for item in it: items.into_iter()
        invariant
            it.seq() == input,
            distinct_positions(input),
            out@.to_multiset() == input.take(it.index() as int).to_multiset(),
            items_sorted(out@),
            distinct_positions(out@),
            out@.len() == it.index(),
            forall|q: int| 0 <= q < out@.len() ==> #[trigger] taken_from(out@[q], input, it.index() as int),
    {
        let ghost k = it.index() as int;
        assert(item == input[k]);
        let mut p: usize = 0;
        while p < out.len() && !precedes(&item, &out[p])
            invariant
                p <= out@.len(),
                forall|q: int| 0 <= q < p ==> item_precedes(#[trigger] out@[q], item),
                out@.to_multiset() == input.take(k).to_multiset(),
                distinct_positions(input),
                item == input[k],
                0 <= k < input.len(),
                forall|q: int| 0 <= q < out@.len() ==> #[trigger] taken_from(out@[q], input, k),
            decreases out@.len() - p,
        {
            proof {
                let x = out@[p as int];
                vstd::seq_lib::to_multiset_contains(out@, x);
                vstd::seq_lib::to_multiset_contains(input.take(k), x);
                assert(out@.contains(x));
                assert(out@.to_multiset().count(x) > 0);
                assert(input.take(k).contains(x));
                assert(taken_from(x, input, k));
                let j = choose|j: int| 0 <= j < k && input[j] == x;
                assert(input[j].original_index != input[k].original_index);
                lemma_item_order(item, x, x);
            }
            p += 1;
        }
        let ghost before = out@;
        out.insert(p, item);
        proof {
            assert(input.take(k + 1) =~= input.take(k).push(item));
            vstd::seq_lib::to_multiset_insert(before, p as int, item);
            vstd::seq_lib::to_multiset_build(input.take(k), item);
            assert(out@ == before.insert(p as int, item));
            assert forall|i: int, j: int| 0 <= i < j < out@.len() implies item_precedes(
                #[trigger] out@[i],
                #[trigger] out@[j],
            ) by {
                if p < before.len() {
                    lemma_item_order(item, before[p as int], out@[j]);
                }
                if i < p && j > p {
                    lemma_item_order(out@[i], item, out@[j]);
                }
                if i == p && j > p + 0 && j - 1 > p {
                    lemma_item_order(item, before[p as int], before[j - 1]);
                }
            }
            assert forall|q: int| 0 <= q < out@.len() implies #[trigger] taken_from(out@[q], input, k + 1) by {
                if q < p {
                    assert(out@[q] == before[q]);
                    assert(taken_from(before[q], input, k));
                    let j = choose|j: int| 0 <= j < k && input[j] == before[q];
                    assert(input[j] == out@[q]);
                } else if q > p {
                    assert(out@[q] == before[q - 1]);
                    assert(taken_from(before[q - 1], input, k));
                    let j = choose|j: int| 0 <= j < k && input[j] == before[q - 1];
                    assert(input[j] == out@[q]);
                } else {
                    assert(input[k] == out@[q]);
                }
            }
            assert forall|a: int, b: int| 0 <= a < b < out@.len() implies #[trigger] out@[a].original_index
                != #[trigger] out@[b].original_index by {
                if a == p {
                    assert(out@[b] == before[b - 1]);
                    assert(taken_from(before[b - 1], input, k));
                    let jj = choose|jj: int| 0 <= jj < k && input[jj] == before[b - 1];
                    assert(input[jj].original_index != input[k].original_index);
                } else if b == p {
                    assert(out@[a] == before[a]);
                    assert(taken_from(before[a], input, k));
                    let jj = choose|jj: int| 0 <= jj < k && input[jj] == before[a];
                    assert(input[jj].original_index != input[k].original_index);
                } else if b < p {
                    assert(out@[a] == before[a] && out@[b] == before[b]);
                } else if a > p {
                    assert(out@[a] == before[a - 1] && out@[b] == before[b - 1]);
                } else {
                    assert(out@[a] == before[a] && out@[b] == before[b - 1]);
                }
            }
        }
    }
    proof {
        assert(input.take(input.len() as int) =~= input);
    }
    out
}


// ---------------------------------------------------------------------------
// Planning a document.

/// Whether a token's text stays out of an item's sort key: the import and
/// export keywords and the semicolon.
pub open spec fn left_out_of_key(text: Seq<char>) -> bool {
    text == seq!['i', 'm', 'p', 'o', 'r', 't'] || text == seq!['e', 'x', 'p', 'o', 'r', 't'] || text == seq![';']
}

/// The texts of the tokens from `start` up to `end`, without keywords and
/// semicolons.
pub open spec fn path_key(tokens: Seq<Token>, start: int, end: int) -> Seq<char>
    decreases end - start,
{
    if end <= start {
        seq![]
    } else if left_out_of_key(tokens[end - 1].text@) {
        path_key(tokens, start, end - 1)
    } else {
        path_key(tokens, start, end - 1) + tokens[end - 1].text@
    }
}

/// The sort key of the item over `span`: its path, a NUL, and its first
/// token.
pub open spec fn sort_key_of(tokens: Seq<Token>, span: TokenSpan) -> Seq<char> {
    path_key(tokens, span.start.0 as int, span.end.0 as int) + seq!['\0'] + tokens[span.start.0 as int].text@
}

/// Whether a gap holds a blank line.
pub open spec fn blank_gap(gap: Gap) -> bool {
    gap.newlines > 1 || exists|i: int| 0 <= i < gap.comments@.len() && #[trigger] gap.comments@[i].newlines_before > 1
}

/// After the first `n` items: the last import group opened, and whether the
/// last item was an import. An import opens a group after a non-import and
/// after a blank line.
pub open spec fn import_state(sources: Seq<ItemSource>, gaps: Seq<Gap>, n: nat) -> (nat, bool)
    decreases n,
{
    if n == 0 {
        (0, false)
    } else {
        let (next, previous) = import_state(sources, gaps, (n - 1) as nat);
        let source = sources[n - 1];
        if source.is_import {
            let start = source.span.start.0;
            let opens = !previous || (start > 0 && blank_gap(gaps[start as int]));
            (if opens {
                next + 1
            } else {
                next
            }, true)
        } else {
            (next, false)
        }
    }
}

/// The import group of item `i`; none for an item that is no import.
pub open spec fn import_group_of(sources: Seq<ItemSource>, gaps: Seq<Gap>, i: int) -> Option<nat> {
    if sources[i].is_import {
        Some(import_state(sources, gaps, (i + 1) as nat).0)
    } else {
        None
    }
}

/// The gap after item `i`: before the next item, or the last gap.
pub open spec fn gap_after(sources: Seq<ItemSource>, gaps: Seq<Gap>, i: int) -> Gap {
    if i + 1 < sources.len() {
        gaps[sources[i + 1].span.start.0 as int]
    } else {
        gaps.last()
    }
}

pub open spec fn split_gap_between(gap: Gap) -> ((Seq<Comment>, nat), (Seq<Comment>, nat)) {
    split_between_spec(gap.comments@, gap.newlines as nat)
}

/// The comments that lead item `i`: the first item's come after the file
/// header.
pub open spec fn leading_of(sources: Seq<ItemSource>, gaps: Seq<Gap>, i: int) -> (Seq<Comment>, nat) {
    if i == 0 {
        let first = gaps[sources[0].span.start.0 as int];
        split_file_header_spec(first.comments@, first.newlines as nat).1
    } else {
        split_gap_between(gap_after(sources, gaps, i - 1)).1
    }
}

/// The comments that trail item `i`.
pub open spec fn trailing_of(sources: Seq<ItemSource>, gaps: Seq<Gap>, i: int) -> (Seq<Comment>, nat) {
    split_gap_between(gap_after(sources, gaps, i)).0
}

/// Whether `item` is the planned item `i` of `sources` over `stream`.
pub open spec fn is_planned_item(stream: TokenStream, sources: Seq<ItemSource>, item: DocumentItem, i: int) -> bool {
    let source = sources[i];
    &&& item.original_index == i
    &&& item.span == source.span
    &&& item.import_group == (match import_group_of(sources, stream.gaps@, i) {
        Some(g) => Some(g as usize),
        None => None,
    })
    &&& item.compact_group == source.compact_group
    &&& gap_view(item.leading) == leading_of(sources, stream.gaps@, i)
    &&& gap_view(item.trailing) == trailing_of(sources, stream.gaps@, i)
    &&& item.identity_key == source.identity_key
    &&& item.sort_key@ == sort_key_of(stream.tokens@, source.span)
}

/// Whether every source spans at least one token of the stream.
pub open spec fn sources_in_stream(stream: TokenStream, sources: Seq<ItemSource>) -> bool {
    forall|i: int|
        0 <= i < sources.len() ==> #[trigger] sources[i].span.start.0 < sources[i].span.end.0
            && sources[i].span.end.0 <= stream.tokens@.len()
}

/// The sort key of the item over `span`.
fn item_sort_key(stream: &TokenStream, span: TokenSpan) -> (result: String)
    requires
        span.start.0 < span.end.0 <= stream.tokens@.len(),
    ensures
        result@ == sort_key_of(stream.tokens@, span),
{
    let import_keyword = String::from_str("import");
    let export_keyword = String::from_str("export");
    let semicolon = String::from_str(";");
    proof {
        reveal_strlit("import");
        reveal_strlit("export");
        reveal_strlit(";");
        assert(import_keyword@ =~= seq!['i', 'm', 'p', 'o', 'r', 't']);
        assert(export_keyword@ =~= seq!['e', 'x', 'p', 'o', 'r', 't']);
        assert(semicolon@ =~= seq![';']);
    }
    let mut key = String::new();
    let mut i = span.start.0;
    while i < span.end.0
        invariant
            span.start.0 <= i <= span.end.0,
            span.end.0 <= stream.tokens@.len(),
            key@ == path_key(stream.tokens@, span.start.0 as int, i as int),
            import_keyword@ == seq!['i', 'm', 'p', 'o', 'r', 't'],
            export_keyword@ == seq!['e', 'x', 'p', 'o', 'r', 't'],
            semicolon@ == seq![';'],
        decreases span.end.0 - i,
    {
        let text = &stream.tokens[i].text;
        if !(*text == import_keyword || *text == export_keyword || *text == semicolon) {
            key.append(text.as_str());
        }
        i += 1;
    }
    proof {
        reveal_strlit("\0");
        assert("\0"@ =~= seq!['\0']);
    }
    key.append("\0");
    key.append(stream.tokens[span.start.0].text.as_str());
    key
}

/// A copy of a gap.
fn copy_gap(gap: &Gap) -> (result: Gap)
    ensures
        gap_view(result) == gap_view(*gap),
{
    let comments = copy_comments(&gap.comments, 0, gap.comments.len());
    proof {
        assert(comments@ =~= gap.comments@);
    }
    Gap { comments, newlines: gap.newlines }
}

/// Plans a document: numbers the runs of imports, gives each item the
/// comments that move with it, and puts the imports first, sorted within
/// each run by their text, and the other items after them in source order.
pub fn plan_document(sources: &Vec<ItemSource>, stream: &TokenStream) -> (result: DocumentPlan)
    requires
        stream.wf(),
        sources_in_stream(*stream, sources@),
    ensures
        sources@.len() == 0 ==> gap_view(result.header) == gap_view(stream.gaps@[0])
            && gap_view(result.footer) == (Seq::<Comment>::empty(), 0nat),
        sources@.len() > 0 ==> {
            let first = stream.gaps@[sources@[0].span.start.0 as int];
            let last = stream.gaps@.last();
            &&& gap_view(result.header) == split_file_header_spec(first.comments@, first.newlines as nat).0
            &&& gap_view(result.footer) == split_gap_between(last).1
        },
        result.items@.len() == sources@.len(),
        forall|k: int|
            0 <= k < result.items@.len() ==> #[trigger] result.items@[k].original_index < sources@.len()
                && is_planned_item(*stream, sources@, result.items@[k], result.items@[k].original_index as int),
        distinct_positions(result.items@),
        items_sorted(result.items@),
{
    let n = sources.len();
    if n == 0 {
        return DocumentPlan { header: copy_gap(stream.gap_before(crate::token_stream::TokenId(0))), items: Vec::new(), footer: empty_gap() };
    }
    let first_gap = stream.gap_before(sources[0].span.start);
    let (header, first_leading) = split_file_header(first_gap);
    let mut items: Vec<DocumentItem> = Vec::new();
    let mut leading = first_leading;
    let mut next_import_group: usize = 0;
    let mut previous_was_import = false;
    let mut index: usize = 0;
    proof {
        assert(sources@[0].span.start.0 < stream.tokens@.len());
    }
    while index < n
        invariant
            n == sources@.len(),
            n > 0,
            stream.wf(),
            sources_in_stream(*stream, sources@),
            index <= n,
            items@.len() == index,
            (next_import_group as nat, previous_was_import) == import_state(sources@, stream.gaps@, index as nat),
            next_import_group <= index,
            index < n ==> gap_view(leading) == leading_of(sources@, stream.gaps@, index as int),
            index == n ==> gap_view(leading) == split_gap_between(stream.gaps@.last()).1,
            forall|k: int| 0 <= k < index ==> #[trigger] is_planned_item(*stream, sources@, items@[k], k),
        decreases n - index,
    {
        let source = &sources[index];
        proof {
            assert(sources_in_stream(*stream, sources@));
            assert(sources@[index as int].span.start.0 < sources@[index as int].span.end.0);
        }
        let import_group = if source.is_import {
            let start = source.span.start.index();
            if !previous_was_import || (start > 0 && gap_has_blank_line(stream.gap_before(source.span.start))) {
                next_import_group += 1;
            }
            Some(next_import_group)
        } else {
            None
        };
        previous_was_import = source.is_import;
        let boundary = if index + 1 < n {
            proof {
                assert(sources@[index + 1].span.start.0 < sources@[index + 1].span.end.0);
            }
            stream.gap_before(sources[index + 1].span.start)
        } else {
            stream.gap_before(crate::token_stream::TokenId(stream.gaps.len() - 1))
        };
        let (trailing, next_leading) = split_between(boundary);
        let item = DocumentItem {
            span: source.span,
            import_group,
            compact_group: source.compact_group,
            leading,
            trailing,
            identity_key: source.identity_key.clone(),
            sort_key: item_sort_key(stream, source.span),
            original_index: index,
        };
        proof {
            assert(is_planned_item(*stream, sources@, item, index as int));
        }
        items.push(item);
        leading = next_leading;
        index += 1;
    }
    proof {
        assert forall|a: int, b: int| 0 <= a < b < items@.len() implies #[trigger] items@[a].original_index
            != #[trigger] items@[b].original_index by {
            assert(is_planned_item(*stream, sources@, items@[a], a));
            assert(is_planned_item(*stream, sources@, items@[b], b));
        }
    }
    let ghost unsorted = items@;
    let sorted = sort_items(items);
    proof {
        assert forall|k: int| 0 <= k < sorted@.len() implies #[trigger] sorted@[k].original_index < sources@.len()
            && is_planned_item(*stream, sources@, sorted@[k], sorted@[k].original_index as int) by {
            assert(taken_from(sorted@[k], unsorted, unsorted.len() as int));
            let j = choose|j: int| 0 <= j < unsorted.len() && unsorted[j] == sorted@[k];
            assert(is_planned_item(*stream, sources@, unsorted[j], j));
        }
    }
    DocumentPlan { header, items: sorted, footer: leading }
}


/// In a planned order, every import comes before every other item.
pub proof fn law_imports_come_first(items: Seq<DocumentItem>, i: int, j: int)
    requires
        items_sorted(items),
        0 <= i < j < items.len(),
        items[j].import_group is Some,
    ensures
        items[i].import_group is Some,
{
    assert(item_precedes(items[i], items[j]));
}

/// In a planned order, the items that are no imports keep their source
/// order.
pub proof fn law_other_items_keep_source_order(items: Seq<DocumentItem>, i: int, j: int)
    requires
        items_sorted(items),
        0 <= i < j < items.len(),
        items[i].import_group is None,
        items[j].import_group is None,
    ensures
        items[i].original_index < items[j].original_index,
{
    assert(item_precedes(items[i], items[j]));
}

/// In a planned order, the imports of one group come in the order of their
/// sort keys, and imports with equal keys in source order.
pub proof fn law_imports_sorted_within_group(items: Seq<DocumentItem>, i: int, j: int)
    requires
        items_sorted(items),
        0 <= i < j < items.len(),
        items[i].import_group is Some,
        items[i].import_group == items[j].import_group,
    ensures
        !bytes_less(encode_utf8(items[j].sort_key@), encode_utf8(items[i].sort_key@)),
        items[i].sort_key@ == items[j].sort_key@ ==> items[i].original_index < items[j].original_index,
{
    assert(item_precedes(items[i], items[j]));
    lemma_bytes_less_total(encode_utf8(items[i].sort_key@), encode_utf8(items[j].sort_key@));
}

/// Import groups are numbered from one, in source order: a later import
/// never has a lower group than an earlier one.
pub proof fn law_import_groups_increase(sources: Seq<ItemSource>, gaps: Seq<Gap>, i: int, j: int)
    requires
        0 <= i < j < sources.len(),
        sources[i].is_import,
        sources[j].is_import,
    ensures
        import_group_of(sources, gaps, i) matches Some(a) && import_group_of(sources, gaps, j) matches Some(b)
            && 1 <= a <= b,
    decreases j - i,
{
    lemma_import_state_monotone(sources, gaps, (i + 1) as nat, (j + 1) as nat);
}

proof fn lemma_import_state_monotone(sources: Seq<ItemSource>, gaps: Seq<Gap>, m: nat, n: nat)
    requires
        0 < m <= n <= sources.len(),
        sources[m - 1].is_import,
    ensures
        1 <= import_state(sources, gaps, m).0 <= import_state(sources, gaps, n).0,
    decreases n,
{
    if n > m {
        lemma_import_state_monotone(sources, gaps, m, (n - 1) as nat);
    } else {
        let (next, previous) = import_state(sources, gaps, (m - 1) as nat);
        if !previous {
            assert(import_state(sources, gaps, m).0 == next + 1);
        } else {
            lemma_import_state_after_import(sources, gaps, (m - 1) as nat);
        }
    }
}

proof fn lemma_import_state_after_import(sources: Seq<ItemSource>, gaps: Seq<Gap>, n: nat)
    requires
        n <= sources.len(),
    ensures
        import_state(sources, gaps, n).1 ==> import_state(sources, gaps, n).0 >= 1,
    decreases n,
{
    if n > 0 {
        lemma_import_state_after_import(sources, gaps, (n - 1) as nat);
    }
}

} // verus!
