//! What the vocabulary of the contracts means, in terms of the strings, numbers
//! and sequences that go in and come out.

use vstd::math;
use vstd::prelude::*;
use vstd::utf8::*;

use crate::cursor::Cursor;
use crate::intern::{self, CompiledRule, SymbolTable};
use crate::output::OutputBuilder;
use crate::projection::TapeView;
use crate::steps::BuilderView;
use crate::tape::{TapeBuilder, TapeEntry};
use crate::text;
use crate::tree::{Child, Meta, NodeView, ParseTree, PosInt, Token, TokenView, Tree};

verus! {

/// The view of a symbol table lists its strings, each at its own index.
pub proof fn symbols_are_the_stored_names(symbols: SymbolTable)
    ensures
        symbols@.len() == symbols.names@.len(),
        forall|i: int|
            0 <= i < symbols.names@.len() ==> #[trigger] symbols@[i] == symbols.names@[i]@,
{
}

/// The names of rules are their stored labels, each at its own index.
pub proof fn rule_names_are_the_stored_labels(rules: Seq<CompiledRule>)
    ensures
        intern::rule_names(rules).len() == rules.len(),
        forall|i: int|
            0 <= i < rules.len() ==> #[trigger] intern::rule_names(rules)[i]
                == rules[i].tree_name@,
{
}

/// The view of a token has each of its fields under the field's own name.
pub proof fn token_views_show_every_field(token: Token)
    ensures
        token@.type_id == token.type_id,
        token@.type_ == token.type_@,
        token@.value == token.value@,
        token@.line == token.line,
        token@.column == token.column,
        token@.end_line == token.end_line,
        token@.end_column == token.end_column,
        token@.start_pos == token.start_pos,
        token@.end_pos == token.end_pos,
{
}

/// The view of a tree has its label, its source range, and the views of its
/// children in their order.
pub proof fn tree_views_show_every_field(tree: Tree)
    ensures
        tree@ matches NodeView::Tree { data, children, meta } && {
            &&& data == tree.data@
            &&& meta == tree.meta
            &&& children.len() == tree.children@.len()
            &&& forall|k: int|
                0 <= k < children.len() ==> #[trigger] children[k] == tree.children@[k]@
        },
{
}

/// The view of a child or of a parse tree tells its three cases apart.
pub proof fn node_views_show_their_case(child: Child, tree: ParseTree)
    ensures
        child matches Child::Tree(t) ==> child@ == t@,
        child matches Child::Token(t) ==> child@ == NodeView::Token(t@),
        child is Absent ==> child@ is Absent,
        tree matches ParseTree::Tree(t) ==> tree@ == t@,
        tree matches ParseTree::Token(t) ==> tree@ == NodeView::Token(t@),
        tree is Absent ==> tree@ is Absent,
{
}

/// Two owned trees with the same view agree in their case, and at every depth
/// in their labels, tokens, source ranges and number of children.
pub proof fn equal_views_have_equal_fields(a: Child, b: Child)
    requires
        a@ == b@,
    ensures
        a is Tree <==> b is Tree,
        a is Token <==> b is Token,
        a is Absent <==> b is Absent,
        a matches Child::Token(s) ==> b matches Child::Token(t) && {
            &&& s.type_id == t.type_id
            &&& s.type_@ == t.type_@
            &&& s.value@ == t.value@
            &&& (s.line, s.column, s.end_line, s.end_column) == (
                t.line,
                t.column,
                t.end_line,
                t.end_column,
            )
            &&& (s.start_pos, s.end_pos) == (t.start_pos, t.end_pos)
        },
        a matches Child::Tree(s) ==> b matches Child::Tree(t) && {
            &&& s.data@ == t.data@
            &&& s.meta == t.meta
            &&& s.children@.len() == t.children@.len()
            &&& forall|k: int|
                0 <= k < s.children@.len() ==> (#[trigger] s.children@[k])@ == t.children@[k]@
        },
{
    if let Child::Tree(s) = a {
        let t = b->Tree_0;
        tree_views_show_every_field(s);
        tree_views_show_every_field(t);
        assert forall|k: int| 0 <= k < s.children@.len() implies (#[trigger] s.children@[k])@
            == t.children@[k]@ by {
            assert(s@->children[k] == t@->children[k]);
        }
    }
}

/// An offset is the encoded length of the characters before it, a boundary is
/// a boundary of the encoded text, and a count is cut off at the end.
pub proof fn offsets_are_encoded_lengths(s: Seq<char>, n: nat)
    ensures
        text::clamp(s, n) == math::min(n as int, s.len() as int),
        text::byte_offset(s, n) == encode_utf8(
            s.take(math::min(n as int, s.len() as int)),
        ).len(),
        text::on_boundary(s, n) <==> is_char_boundary(encode_utf8(s), n as int),
{
}

/// The text between two boundaries is the one whose encoding stands between
/// them.
pub proof fn text_between_is_encoded_between(s: Seq<char>, lo: nat, hi: nat)
    requires
        lo <= hi,
        is_char_boundary(encode_utf8(s), lo as int),
        is_char_boundary(encode_utf8(s), hi as int),
    ensures
        encode_utf8(text::text_between(s, lo, hi)) == encode_utf8(s).subrange(lo as int, hi as int),
{
    text::lemma_boundary_is_offset(s, lo);
    text::lemma_boundary_is_offset(s, hi);
    let (a, b) = (text::chars_before(s, lo), text::chars_before(s, hi));
    if a > b {
        text::lemma_offset_bounds(s, b, a);
    }
    text::lemma_text_between(s, a, b);
}

/// A cursor that has counted the characters and bytes of some start of the
/// input can be moved anywhere in it, and then stands where that many
/// characters end, or at the end of the input.
pub proof fn seeks_count_characters_and_bytes(cursor: Cursor, s: Seq<char>, n: nat)
    requires
        cursor.chars <= s.len(),
        cursor.bytes == encode_utf8(s.take(cursor.chars as int)).len(),
    ensures
        cursor.can_seek(s, n),
        cursor.seek(s, n).chars == math::min(n as int, s.len() as int),
        cursor.seek(s, n).bytes == encode_utf8(
            s.take(math::min(n as int, s.len() as int)),
        ).len(),
{
}

/// Where the cursor starts from, whatever it counted before: from the beginning
/// if it has to go back, and otherwise from where it stands. It can be moved if
/// it need not read the text, or if its offset is a boundary of the text. If it
/// need not read, it ends where it started from.
pub proof fn seeks_start_here_or_over(cursor: Cursor, s: Seq<char>, n: nat)
    ensures
        ({
            let (chars, bytes) = if n < cursor.chars {
                (0nat, 0nat)
            } else {
                (cursor.chars, cursor.bytes)
            };
            &&& cursor.can_seek(s, n) <==> n <= chars || is_char_boundary(
                encode_utf8(s),
                bytes as int,
            )
            &&& n <= chars ==> cursor.seek(s, n) == (Cursor { chars, bytes })
        }),
{
    text::lemma_offset_is_boundary(s, cursor.chars);
    text::lemma_offset_is_boundary(s, 0);
}

/// Where the cursor ends up, whatever it counted before: it reads on from its
/// offset, one character at a time, until it has counted enough or the text
/// ends. `pre` is the text before the place that it starts from, `rest` the
/// text behind.
pub proof fn seeks_read_on(cursor: Cursor, pre: Seq<char>, rest: Seq<char>, n: nat)
    requires
        n < cursor.chars ==> pre.len() == 0,
        cursor.chars <= n ==> encode_utf8(pre).len() == cursor.bytes,
    ensures
        ({
            let from = if n < cursor.chars {
                0
            } else {
                cursor.chars as int
            };
            let read = math::min(n - from, rest.len() as int);
            &&& cursor.can_seek(pre + rest, n)
            &&& cursor.seek(pre + rest, n).chars == from + read
            &&& cursor.seek(pre + rest, n).bytes == encode_utf8(pre + rest.take(read)).len()
        }),
{
    let s = pre + rest;
    let from = cursor.rewound(n);
    assert(s.take(pre.len() as int) =~= pre);
    text::lemma_offset_is_boundary(s, pre.len());
    assert(from.bytes == text::byte_offset(s, pre.len()));
    text::lemma_offset_is_boundary(s, cursor.chars);
    let read = math::min(n - from.chars, rest.len() as int);
    assert(s.take(pre.len() + read) =~= pre + rest.take(read));
    if cursor.fits(s) && cursor.chars <= n {
        assert(cursor.chars == pre.len());
    }
    if n == from.chars {
        assert(rest.take(0) =~= Seq::<char>::empty());
        assert(pre + rest.take(0) =~= pre);
    }
}

/// Which spans are pieces of the input, and which ranges lie in the child
/// array.
pub proof fn spans_and_ranges_are_in_bounds(tape: TapeView, from: u32, to: u32)
    ensures
        tape.has_text(from, to) <==> {
            &&& from <= to
            &&& is_char_boundary(encode_utf8(tape.input), from as int)
            &&& is_char_boundary(encode_utf8(tape.input), to as int)
        },
        tape.has_kids(from, to) <==> from + to <= u32::MAX && from + to <= tape.kids.len(),
{
}

/// The text of a span is the piece of the input that it spans, whatever else is
/// on the tape.
pub proof fn text_is_a_piece_of_the_input(tape: TapeView, byte_start: PosInt, byte_end: PosInt)
    requires
        byte_start <= byte_end,
        is_char_boundary(encode_utf8(tape.input), byte_start as int),
        is_char_boundary(encode_utf8(tape.input), byte_end as int),
    ensures
        encode_utf8(tape.text(byte_start, byte_end)) == encode_utf8(tape.input).subrange(
            byte_start as int,
            byte_end as int,
        ),
{
    text_between_is_encoded_between(tape.input, byte_start as nat, byte_end as nat);
}

/// The children of a node are the indices in its range, one for one; no other
/// entry has any.
pub proof fn children_are_the_range(tape: TapeView, entry: TapeEntry)
    ensures
        entry !is Node ==> tape.children(entry).len() == 0,
        entry matches TapeEntry::Node { kids_start, kids_len, .. } ==> kids_start + kids_len
            <= tape.kids.len() ==> {
            &&& tape.children(entry).len() == kids_len
            &&& forall|k: int|
                0 <= k < kids_len ==> #[trigger] tape.children(entry)[k] == tape.kids[kids_start
                    + k]
        },
{
}

/// An absent entry stands for nothing.
pub proof fn absent_entries_stand_for_nothing(tape: TapeView, idx: int)
    requires
        0 <= idx < tape.nodes.len(),
        tape.nodes[idx] is Absent,
    ensures
        tape.projectable(idx),
        tape.projection(idx) is Absent,
{
    tape.projection_unfolds(idx);
}

/// A token entry stands for a token with the name that its type has in the
/// table, the text that its span has in the input, and its own positions.
pub proof fn token_entries_stand_for_tokens(tape: TapeView, idx: int)
    requires
        0 <= idx < tape.nodes.len(),
        tape.nodes[idx] matches TapeEntry::Token { type_id, byte_start, byte_end, .. } && {
            &&& type_id.0 < tape.symbols.len()
            &&& byte_start <= byte_end
            &&& is_char_boundary(encode_utf8(tape.input), byte_start as int)
            &&& is_char_boundary(encode_utf8(tape.input), byte_end as int)
        },
    ensures
        tape.projectable(idx),
        tape.projection(idx) matches NodeView::Token(token) && (tape.nodes[idx] matches
            TapeEntry::Token {
            type_id,
            byte_start,
            byte_end,
            line,
            column,
            end_line,
            end_column,
            start_pos,
            end_pos,
        } && {
            &&& token.type_id == type_id
            &&& token.type_ == tape.symbols[type_id.0 as int]
            &&& encode_utf8(token.value) == encode_utf8(tape.input).subrange(
                byte_start as int,
                byte_end as int,
            )
            &&& token.line == line
            &&& token.column == column
            &&& token.end_line == end_line
            &&& token.end_column == end_column
            &&& token.start_pos == start_pos
            &&& token.end_pos == end_pos
        }),
{
    tape.projection_unfolds(idx);
    if let TapeEntry::Token { byte_start, byte_end, .. } = tape.nodes[idx] {
        text_is_a_piece_of_the_input(tape, byte_start, byte_end);
    }
}

/// A node entry whose children stand for trees stands for a tree itself: with
/// the label that its rule has in the table, its own source range, and what its
/// children stand for, one for one.
pub proof fn node_entries_stand_for_trees(tape: TapeView, idx: int)
    requires
        0 <= idx < tape.nodes.len(),
        tape.nodes[idx] matches TapeEntry::Node { rule, kids_start, kids_len, .. } && {
            &&& rule < tape.rules.len()
            &&& kids_start + kids_len <= u32::MAX
            &&& kids_start + kids_len <= tape.kids.len()
            &&& forall|k: int|
                kids_start <= k < kids_start + kids_len ==> tape.projectable(
                    #[trigger] tape.kids[k] as int,
                )
        },
    ensures
        tape.projectable(idx),
        tape.projection(idx) matches NodeView::Tree { data, children, meta } && (
        tape.nodes[idx] matches TapeEntry::Node { rule, kids_start, kids_len, meta: m } && {
            &&& data == tape.rules[rule as int]
            &&& meta == m
            &&& children.len() == kids_len
            &&& forall|k: int|
                0 <= k < kids_len ==> #[trigger] children[k] == tape.projection(
                    tape.kids[kids_start + k] as int,
                )
        }),
{
    let entry = tape.nodes[idx];
    if let TapeEntry::Node { kids_start, kids_len, .. } = entry {
        assert forall|k: int| 0 <= k < tape.children(entry).len() implies tape.projectable(
            #[trigger] tape.children(entry)[k] as int,
        ) by {
            assert(tape.children(entry)[k] == tape.kids[kids_start + k]);
        }
    }
    tape.projection_unfolds(idx);
}

/// An owned tree that an entry stands for has, in its own fields, what the entry
/// says: the strings from the input and the tables, the positions and the source
/// range as they are stored, and one child for each index in the child range,
/// which that index stands for.
pub proof fn children_show_their_entries(tape: TapeView, child: Child, idx: int)
    requires
        tape.projectable(idx),
        child@ == tape.projection(idx),
    ensures
        0 <= idx < tape.nodes.len(),
        match tape.nodes[idx] {
            TapeEntry::Token {
                type_id,
                byte_start,
                byte_end,
                line,
                column,
                end_line,
                end_column,
                start_pos,
                end_pos,
            } => child matches Child::Token(t) && {
                &&& t.type_id == type_id
                &&& t.type_@ == tape.symbols[type_id.0 as int]
                &&& encode_utf8(t.value@) == encode_utf8(tape.input).subrange(
                    byte_start as int,
                    byte_end as int,
                )
                &&& t.line == line
                &&& t.column == column
                &&& t.end_line == end_line
                &&& t.end_column == end_column
                &&& t.start_pos == start_pos
                &&& t.end_pos == end_pos
            },
            TapeEntry::Node { rule, kids_start, kids_len, meta } => child matches Child::Tree(t) && {
                &&& t.data@ == tape.rules[rule as int]
                &&& t.meta == meta
                &&& t.children@.len() == kids_len
                &&& forall|k: int|
                    0 <= k < kids_len ==> {
                        &&& tape.projectable(tape.kids[kids_start + k] as int)
                        &&& (#[trigger] t.children@[k])@ == tape.projection(
                            tape.kids[kids_start + k] as int,
                        )
                    }
            },
            TapeEntry::Absent => child is Absent,
        },
{
    tape.lemma_kids_are_lower(idx);
    tape.projection_unfolds(idx);
    let entry = tape.nodes[idx];
    match entry {
        TapeEntry::Token { .. } => {
            token_entries_stand_for_tokens(tape, idx);
        },
        TapeEntry::Node { kids_start, kids_len, .. } => {
            let t = child->Tree_0;
            let kids = tape.children(entry);
            tree_views_show_every_field(t);
            assert forall|k: int| 0 <= k < kids_len implies {
                &&& tape.projectable(tape.kids[kids_start + k] as int)
                &&& (#[trigger] t.children@[k])@ == tape.projection(
                    tape.kids[kids_start + k] as int,
                )
            } by {
                assert(kids[k] == tape.kids[kids_start + k]);
                assert(t@->children[k] == tape.projection(kids[k] as int));
            }
        },
        TapeEntry::Absent => {},
    }
}

/// A new builder has nothing on its arrays, and has read nothing.
pub proof fn new_builders_are_empty()
    ensures
        BuilderView::empty().nodes.len() == 0,
        BuilderView::empty().kids.len() == 0,
        BuilderView::empty().cursor.chars == 0,
        BuilderView::empty().cursor.bytes == 0,
{
}

/// Appending adds one entry at the end, and touches nothing else.
pub proof fn appending_adds_one_entry(builder: BuilderView, entry: TapeEntry)
    ensures
        builder.append(entry).nodes == builder.nodes.push(entry),
        builder.append(entry).kids == builder.kids,
        builder.append(entry).cursor == builder.cursor,
        builder.with_placeholder().nodes == builder.nodes.push(TapeEntry::Absent),
        builder.with_placeholder().kids == builder.kids,
        builder.with_placeholder().cursor == builder.cursor,
{
}

/// A token adds one entry at the end: its own type and positions, and the span
/// where it stands, from the encoded length of the characters before it to the
/// encoded length of the characters up to its end. The cursor stays at its end.
pub proof fn tokens_are_recorded_where_they_stand(
    builder: BuilderView,
    token: TokenView,
    input: Seq<char>,
)
    requires
        builder.cursor.chars <= input.len(),
        builder.cursor.bytes == encode_utf8(input.take(builder.cursor.chars as int)).len(),
        encode_utf8(
            input.take(math::min(token.start_pos as int, input.len() as int)),
        ).len() <= PosInt::MAX,
        encode_utf8(
            input.take(math::min(token.end_pos as int, input.len() as int)),
        ).len() <= PosInt::MAX,
    ensures
        builder.nodes.len() <= u32::MAX ==> builder.can_append_token(token, input),
        builder.with_token(token, input).kids == builder.kids,
        builder.with_token(token, input).nodes == builder.nodes.push(
            TapeEntry::Token {
                type_id: token.type_id,
                byte_start: encode_utf8(
                    input.take(math::min(token.start_pos as int, input.len() as int)),
                ).len() as PosInt,
                byte_end: encode_utf8(
                    input.take(math::min(token.end_pos as int, input.len() as int)),
                ).len() as PosInt,
                line: token.line,
                column: token.column,
                end_line: token.end_line,
                end_column: token.end_column,
                start_pos: token.start_pos,
                end_pos: token.end_pos,
            },
        ),
        builder.with_token(token, input).cursor.chars == math::min(
            token.end_pos as int,
            input.len() as int,
        ),
        builder.with_token(token, input).cursor.bytes == encode_utf8(
            input.take(math::min(token.end_pos as int, input.len() as int)),
        ).len(),
{
}

/// A node adds its children at the end of the child array, and one entry that
/// points to exactly these.
pub proof fn nodes_point_to_their_children(
    builder: BuilderView,
    rule: usize,
    children: Seq<u32>,
    meta: Meta,
)
    ensures
        builder.with_node(rule, children, meta).kids == builder.kids + children,
        builder.with_node(rule, children, meta).cursor == builder.cursor,
        builder.with_node(rule, children, meta).nodes == builder.nodes.push(
            TapeEntry::Node {
                rule: rule as u32,
                kids_start: builder.kids.len() as u32,
                kids_len: children.len() as u32,
                meta,
            },
        ),
{
}

/// A tape has the arrays of its builder, and the input, the names and the root
/// that it was given.
pub proof fn tapes_keep_what_they_are_given(
    builder: BuilderView,
    input: Seq<char>,
    rules: Seq<Seq<char>>,
    symbols: Seq<Seq<char>>,
    root: u32,
)
    ensures
        builder.tape(input, rules, symbols, root).nodes == builder.nodes,
        builder.tape(input, rules, symbols, root).kids == builder.kids,
        builder.tape(input, rules, symbols, root).input == input,
        builder.tape(input, rules, symbols, root).rules == rules,
        builder.tape(input, rules, symbols, root).symbols == symbols,
        builder.tape(input, rules, symbols, root).root == root,
{
}

/// What a builder takes. Placeholders and nodes: as long as the next index, and
/// for nodes the next place in the child array, is a `u32`. Tokens: as long as
/// the next index is one, the cursor can be moved to both ends of the token in
/// turn, and both offsets can be stored.
pub proof fn builders_take_what_can_be_stored(
    builder: TapeBuilder,
    token: Token,
    input: &str,
    rule: usize,
    children: Seq<u32>,
)
    ensures
        builder.accepts_placeholder() <==> builder@.nodes.len() <= u32::MAX,
        builder.accepts_reduce(rule, children) <==> builder@.nodes.len() <= u32::MAX
            && builder@.kids.len() <= u32::MAX,
        builder.accepts_token(token, input) <==> {
            let start = builder@.cursor.seek(input@, token.start_pos as nat);
            &&& builder@.nodes.len() <= u32::MAX
            &&& builder@.cursor.can_seek(input@, token.start_pos as nat)
            &&& start.can_seek(input@, token.end_pos as nat)
            &&& start.bytes <= PosInt::MAX
            &&& start.seek(input@, token.end_pos as nat).bytes <= PosInt::MAX
        },
        builder@.can_append() <==> builder@.nodes.len() <= u32::MAX,
        builder@.can_append_node() <==> builder@.nodes.len() <= u32::MAX && builder@.kids.len()
            <= u32::MAX,
{
}

} // verus!
