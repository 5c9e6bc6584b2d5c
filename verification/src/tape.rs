//! The tape, and the builder that fills it during a parse.

use vstd::math;
use vstd::prelude::*;
use vstd::utf8::*;

use crate::cursor::Cursor;
use crate::intern::{self, CompiledRule, SymbolId, SymbolTable};
use crate::meaning;
use crate::output::{OutputBuilder, OutputContext};
use crate::projection::TapeView;
use crate::steps::BuilderView;
use crate::text;
use crate::tree::{self, Child, Meta, ParseTree, PosInt, Token, Tree};

verus! {

/// One entry on the tape. Tokens carry both the character positions and the
/// byte span of the matched text; nodes carry their rule, their source range,
/// and a range of the shared child array.
#[derive(Debug, Clone)]
pub enum TapeEntry {
    Token {
        type_id: SymbolId,
        byte_start: PosInt,
        byte_end: PosInt,
        line: PosInt,
        column: PosInt,
        end_line: PosInt,
        end_column: PosInt,
        start_pos: PosInt,
        end_pos: PosInt,
    },
    Node {
        /// The rule index; it resolves to the node's label when asked for.
        rule: u32,
        kids_start: u32,
        kids_len: u32,
        meta: Meta,
    },
    /// An absent optional.
    Absent,
}

/// A parsed tape: the flat entries, the child array, and the root entry.
/// Borrows the input for token text and the grammar tables for names.
pub struct TapeTree<'i, 'g> {
    input: &'i str,
    rules: &'g [CompiledRule],
    symbols: &'g SymbolTable,
    nodes: Vec<TapeEntry>,
    kids: Vec<u32>,
    root: u32,
}

impl<'i, 'g> TapeTree<'i, 'g> {
    pub closed spec fn view(&self) -> TapeView {
        TapeView {
            input: self.input@,
            rules: intern::rule_names(self.rules@),
            symbols: self.symbols@,
            nodes: self.nodes@,
            kids: self.kids@,
            root: self.root,
        }
    }

    /// The tape entries. On the tape of a parse, children precede their parents.
    pub fn entries(&self) -> (entries: &[TapeEntry])
        ensures
            entries@ == self@.nodes,
    {
        self.nodes.as_slice()
    }

    /// The index of the root entry.
    pub fn root(&self) -> (root: u32)
        ensures
            root == self@.root,
    {
        self.root
    }

    /// The children of a node entry, as indices of tape entries. Other entries
    /// have none.
    pub fn children(&self, entry: &TapeEntry) -> (kids: &[u32])
        requires
            entry matches TapeEntry::Node { kids_start, kids_len, .. } ==> self@.has_kids(
                *kids_start,
                *kids_len,
            ),
        ensures
            kids@ == self@.children(*entry),
            match entry {
                TapeEntry::Node { kids_start, kids_len, .. } => kids@ == self@.kids.subrange(
                    *kids_start as int,
                    *kids_start + *kids_len,
                ),
                _ => kids@.len() == 0,
            },
    {
        match entry {
            TapeEntry::Node { kids_start, kids_len, .. } => {
                &self.kids.as_slice()[*kids_start as usize..(*kids_start + *kids_len) as usize]
            },
            _ => &self.kids.as_slice()[0..0],
        }
    }

    /// The matched text of a token entry: a piece of the input, not a copy.
    /// Other entries have no text.
    pub fn token_text(&self, entry: &TapeEntry) -> (text: Option<&'i str>)
        requires
            entry matches TapeEntry::Token { byte_start, byte_end, .. } ==> self@.has_text(
                *byte_start,
                *byte_end,
            ),
        ensures
            match entry {
                TapeEntry::Token { byte_start, byte_end, .. } => text matches Some(t) && t@
                    == self@.text(*byte_start, *byte_end),
                _ => text is None,
            },
            entry matches TapeEntry::Token { byte_start, byte_end, .. } ==> (text matches Some(t)
                && encode_utf8(t@) == encode_utf8(self@.input).subrange(
                *byte_start as int,
                *byte_end as int,
            )),
    {
        match entry {
            TapeEntry::Token { byte_start, byte_end, .. } => Some(
                text::str_between(self.input, *byte_start as usize, *byte_end as usize),
            ),
            _ => None,
        }
    }

    /// The owned tree that the tape stands for. Names and token text are copied
    /// here, and only here. Recurses as deep as the tree is.
    pub fn materialize(&self) -> (tree: ParseTree)
        requires
            self@.projectable(self@.root as int),
        ensures
            tree@ == self@.projection(self@.root as int),
            match self@.nodes[self@.root as int] {
                TapeEntry::Token {
                    type_id,
                    byte_start,
                    byte_end,
                    line,
                    column,
                    end_line,
                    end_column,
                    start_pos,
                    end_pos,
                } => tree matches ParseTree::Token(t) && {
                    &&& t.type_id == type_id
                    &&& t.type_@ == self@.symbols[type_id.0 as int]
                    &&& encode_utf8(t.value@) == encode_utf8(self@.input).subrange(
                        byte_start as int,
                        byte_end as int,
                    )
                    &&& t.line == line
                    &&& t.column == column
                    &&& t.end_line == end_line
                    &&& t.end_column == end_column
                    &&& t.start_pos == start_pos
                    &&& t.end_pos == end_pos
                },
                TapeEntry::Node { rule, kids_start, kids_len, meta } => tree matches ParseTree::Tree(
                    t,
                ) && {
                    &&& t.data@ == self@.rules[rule as int]
                    &&& t.meta == meta
                    &&& t.children@.len() == kids_len
                    &&& forall|k: int|
                        0 <= k < kids_len ==> (#[trigger] t.children@[k])@ == self@.projection(
                            self@.kids[kids_start + k] as int,
                        )
                },
                TapeEntry::Absent => tree is Absent,
            },
    {
        let child = self.materialize_child(self.root);
        proof {
            meaning::children_show_their_entries(self@, child, self@.root as int);
        }
        match child {
            Child::Tree(t) => ParseTree::Tree(t),
            Child::Token(t) => ParseTree::Token(t),
            Child::Absent => ParseTree::Absent,
        }
    }

    /// The owned tree that the entry at `idx` stands for.
    #[verifier::rlimit(50)]
    pub(crate) fn materialize_child(&self, idx: u32) -> (child: Child)
        requires
            self@.projectable(idx as int),
        ensures
            child@ == self@.projection(idx as int),
        decreases self@.height(idx as int),
    {
        proof {
            self@.lemma_kids_are_lower(idx as int);
        }
        match &self.nodes[idx as usize] {
            TapeEntry::Token {
                type_id,
                byte_start,
                byte_end,
                line,
                column,
                end_line,
                end_column,
                start_pos,
                end_pos,
            } => {
                let token = Token {
                    type_id: *type_id,
                    type_: self.symbols.name(*type_id).to_string(),
                    value: text::str_between(
                        self.input,
                        *byte_start as usize,
                        *byte_end as usize,
                    ).to_string(),
                    line: *line,
                    column: *column,
                    end_line: *end_line,
                    end_column: *end_column,
                    start_pos: *start_pos,
                    end_pos: *end_pos,
                };
                proof {
                    self@.projection_unfolds(idx as int);
                }
                Child::Token(token)
            },
            TapeEntry::Node { rule, kids_start, kids_len, meta } => {
                let kids = &self.kids.as_slice()[*kids_start as usize..(*kids_start
                    + *kids_len) as usize];
                let ghost entry = self@.nodes[idx as int];
                let mut children: Vec<Child> = Vec::new();
                for k in 0..kids.len()
                    invariant
                        kids@ == self@.children(entry),
                        entry == self@.nodes[idx as int],
                        self@.kids_projectable(entry),
                        forall|j: int|
                            0 <= j < kids@.len() ==> self@.height(#[trigger] kids@[j] as int)
                                < self@.height(idx as int),
                        children@.len() == k,
                        forall|j: int|
                            0 <= j < k ==> (#[trigger] children@[j])@ == self@.projection(
                                kids@[j] as int,
                            ),
                {
                    let child = self.materialize_child(kids[k]);
                    children.push(child);
                }
                let tree = Tree {
                    data: self.rules[*rule as usize].tree_name.as_str().to_string(),
                    children,
                    meta: meta.clone(),
                };
                proof {
                    self@.lemma_tree_unfolds(idx as int, tree);
                }
                Child::Tree(tree)
            },
            TapeEntry::Absent => {
                proof {
                    self@.projection_unfolds(idx as int);
                }
                Child::Absent
            },
        }
    }
}

/// Appends a parse to two flat arrays. The values that it hands to the parse
/// engine are indices of tape entries.
pub struct TapeBuilder {
    nodes: Vec<TapeEntry>,
    kids: Vec<u32>,
    /// Running cursor from characters to bytes: token positions count
    /// characters, while slicing needs byte offsets. As tokens come in order,
    /// the cursor mostly moves forward.
    cursor_char: usize,
    cursor_byte: usize,
}

impl TapeBuilder {
    pub closed spec fn view(&self) -> BuilderView {
        BuilderView {
            nodes: self.nodes@,
            kids: self.kids@,
            cursor: Cursor { chars: self.cursor_char as nat, bytes: self.cursor_byte as nat },
        }
    }

    /// A builder for one parse.
    pub fn new() -> (builder: Self)
        ensures
            builder@ == BuilderView::empty(),
            builder@.nodes.len() == 0,
            builder@.kids.len() == 0,
            builder@.cursor.chars == 0,
            builder@.cursor.bytes == 0,
    {
        TapeBuilder { nodes: Vec::new(), kids: Vec::new(), cursor_char: 0, cursor_byte: 0 }
    }

    /// Moves the cursor to the character position `char_idx` and returns its
    /// byte offset.
    pub(crate) fn byte_offset_at(&mut self, input: &str, char_idx: usize) -> (offset: usize)
        requires
            old(self)@.cursor.can_seek(input@, char_idx as nat),
        ensures
            final(self)@ == (BuilderView {
                cursor: old(self)@.cursor.seek(input@, char_idx as nat),
                ..old(self)@
            }),
            offset == final(self)@.cursor.bytes,
            old(self)@.cursor.chars <= input@.len() && old(self)@.cursor.bytes == encode_utf8(
                input@.take(old(self)@.cursor.chars as int),
            ).len() ==> offset == encode_utf8(
                input@.take(math::min(char_idx as int, input@.len() as int)),
            ).len(),
    {
        let ghost s = input@;
        let ghost before = self@.cursor;
        let ghost from = before.rewound(char_idx as nat);
        let ghost first = text::chars_before(s, from.bytes);
        proof {
            text::lemma_offset_is_boundary(s, from.chars);
            text::lemma_offset_is_boundary(s, 0);
            if text::on_boundary(s, from.bytes) {
                text::lemma_boundary_is_offset(s, from.bytes);
            }
        }
        // The length of the encoded input is a `usize`, and bounds the cursor.
        let bytes = input.as_bytes();
        if char_idx < self.cursor_char {
            self.cursor_char = 0;
            self.cursor_byte = 0;
        }
        while self.cursor_char < char_idx
            invariant
                s == input@,
                bytes@ == encode_utf8(s),
                bytes.len() == bytes@.len(),
                first == text::chars_before(s, from.bytes),
                self.nodes == old(self).nodes,
                self.kids == old(self).kids,
                from.chars < char_idx ==> text::on_boundary(s, from.bytes),
                from.chars <= self.cursor_char <= char_idx,
                self.cursor_char == from.chars ==> self.cursor_byte == from.bytes,
                from.chars < char_idx ==> {
                    &&& first + (self.cursor_char - from.chars) <= s.len()
                    &&& self.cursor_byte == text::byte_offset(
                        s,
                        (first + (self.cursor_char - from.chars)) as nat,
                    )
                },
            ensures
                self.cursor_char == char_idx || first + (self.cursor_char - from.chars) == s.len(),
            decreases char_idx - self.cursor_char,
        {
            let ghost here = (first + (self.cursor_char - from.chars)) as nat;
            proof {
                text::lemma_offset_is_boundary(s, here);
            }
            match text::char_at(input, self.cursor_byte) {
                Some(ch) => {
                    proof {
                        text::lemma_offset_step(s, here);
                        text::lemma_offset_bounds(s, here, here + 1);
                    }
                    self.cursor_byte += text::utf8_width(ch);
                    self.cursor_char += 1;
                },
                None => break,
            }
        }
        self.cursor_byte
    }

    /// Appends an entry and returns its index.
    fn push(&mut self, entry: TapeEntry) -> (idx: u32)
        requires
            old(self)@.can_append(),
        ensures
            final(self)@ == old(self)@.append(entry),
            final(self)@.nodes == old(self)@.nodes.push(entry),
            final(self)@.kids == old(self)@.kids,
            final(self)@.cursor == old(self)@.cursor,
            idx == old(self)@.nodes.len(),
    {
        let idx = self.nodes.len();
        self.nodes.push(entry);
        idx as u32
    }

    /// Ends the parse: the arrays move into the tape.
    pub fn into_tape<'i, 'g>(
        self,
        input: &'i str,
        rules: &'g [CompiledRule],
        symbols: &'g SymbolTable,
        root: u32,
    ) -> (tape: TapeTree<'i, 'g>)
        ensures
            tape@ == self@.tape(input@, intern::rule_names(rules@), symbols@, root),
            tape@.input == input@,
            tape@.nodes == self@.nodes,
            tape@.kids == self@.kids,
            tape@.root == root,
            tape@.rules.len() == rules@.len(),
            forall|r: int|
                0 <= r < rules@.len() ==> #[trigger] tape@.rules[r] == rules@[r].tree_name@,
            tape@.symbols.len() == symbols.names@.len(),
            forall|i: int|
                0 <= i < symbols.names@.len() ==> #[trigger] tape@.symbols[i]
                    == symbols.names@[i]@,
    {
        TapeTree { input, rules, symbols, nodes: self.nodes, kids: self.kids, root }
    }
}

impl<'i> OutputBuilder<'i> for TapeBuilder {
    type Value = u32;

    open spec fn accepts_token(&self, token: Token, input: &'i str) -> bool {
        self@.can_append_token(token@, input@)
    }

    open spec fn accepts_reduce(&self, rule: usize, children: Seq<u32>) -> bool {
        self@.can_append_node()
    }

    open spec fn accepts_placeholder(&self) -> bool {
        self@.can_append()
    }

    /// Appends a token entry.
    fn token(&mut self, token: Token, input: &'i str, _ctx: &OutputContext) -> (idx: u32)
        ensures
            final(self)@ == old(self)@.with_token(token@, input@),
            idx == old(self)@.nodes.len(),
            final(self)@.kids == old(self)@.kids,
            final(self)@.nodes == old(self)@.nodes.push(final(self)@.nodes.last()),
            final(self)@.nodes.last() matches TapeEntry::Token {
                type_id,
                byte_start,
                byte_end,
                line,
                column,
                end_line,
                end_column,
                start_pos,
                end_pos,
            } && {
                let start = old(self)@.cursor.seek(input@, token.start_pos as nat);
                let end = start.seek(input@, token.end_pos as nat);
                &&& type_id == token.type_id
                &&& byte_start == start.bytes
                &&& byte_end == end.bytes
                &&& line == token.line
                &&& column == token.column
                &&& end_line == token.end_line
                &&& end_column == token.end_column
                &&& start_pos == token.start_pos
                &&& end_pos == token.end_pos
                &&& final(self)@.cursor == end
            },
            old(self)@.cursor.chars <= input@.len() && old(self)@.cursor.bytes == encode_utf8(
                input@.take(old(self)@.cursor.chars as int),
            ).len() ==> {
                let start = math::min(token.start_pos as int, input@.len() as int);
                let end = math::min(token.end_pos as int, input@.len() as int);
                &&& final(self)@.nodes.last() matches TapeEntry::Token { byte_start, byte_end, .. }
                &&& byte_start == encode_utf8(input@.take(start)).len()
                &&& byte_end == encode_utf8(input@.take(end)).len()
                &&& final(self)@.cursor.chars == end
                &&& final(self)@.cursor.bytes == encode_utf8(input@.take(end)).len()
            },
    {
        let byte_start = self.byte_offset_at(input, token.start_pos as usize);
        let byte_end = self.byte_offset_at(input, token.end_pos as usize);
        self.push(
            TapeEntry::Token {
                type_id: token.type_id,
                byte_start: tree::checked_pos(byte_start),
                byte_end: tree::checked_pos(byte_end),
                line: token.line,
                column: token.column,
                end_line: token.end_line,
                end_column: token.end_column,
                start_pos: token.start_pos,
                end_pos: token.end_pos,
            },
        )
    }

    /// Appends the children to the child array, and a node entry that points to
    /// them.
    fn reduce(
        &mut self,
        rule: usize,
        children: &mut Vec<u32>,
        meta: &Meta,
        _ctx: &OutputContext,
    ) -> (idx: u32)
        ensures
            final(self)@ == old(self)@.with_node(rule, old(children)@, *meta),
            *final(children) == *old(children),
            idx == old(self)@.nodes.len(),
            final(self)@.nodes == old(self)@.nodes.push(
                TapeEntry::Node {
                    rule: rule as u32,
                    kids_start: old(self)@.kids.len() as u32,
                    kids_len: old(children)@.len() as u32,
                    meta: *meta,
                },
            ),
            final(self)@.kids == old(self)@.kids + old(children)@,
            final(self)@.cursor == old(self)@.cursor,
    {
        let kids_start = self.kids.len();
        self.kids.extend_from_slice(children.as_slice());
        proof {
            assert(self.kids@ =~= old(self).kids@ + children@);
        }
        self.push(
            TapeEntry::Node {
                rule: rule as u32,
                kids_start: kids_start as u32,
                kids_len: children.len() as u32,
                meta: meta.clone(),
            },
        )
    }

    /// Appends an absent entry.
    fn placeholder(&mut self, _ctx: &OutputContext) -> (idx: u32)
        ensures
            final(self)@ == old(self)@.with_placeholder(),
            idx == old(self)@.nodes.len(),
            final(self)@.nodes == old(self)@.nodes.push(TapeEntry::Absent),
            final(self)@.kids == old(self)@.kids,
            final(self)@.cursor == old(self)@.cursor,
    {
        self.push(TapeEntry::Absent)
    }
}

} // verus!
